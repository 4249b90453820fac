//! Lists, clean-up, backup and restoration of positions.

use crate::audio_meta;
use crate::audio_meta::{AudioFolderInner, AudioFolderShort, FolderView, ShortView};
use crate::cache::inner;
use crate::cache::inner::{CacheInner, CacheModel, Insertion, Request};
use crate::cache::shuffle;
use crate::cache::util;
use crate::error::Error;
use crate::position;
use crate::position::{ItemView, Position, PositionItem, PositionView};
use crate::text;
use crate::timestamp::TimeStamp;
use vstd::prelude::*;
use vstd::string::*;

verus! {

/// The positions of a group in those of the given folders that start with `prefix`.
pub open spec fn group_positions(
    m: CacheModel,
    keys: Seq<Seq<char>>,
    prefix: Seq<char>,
    group: Seq<char>,
    collection_no: usize,
) -> Seq<PositionView>
    decreases keys.len(),
{
    if keys.len() == 0 {
        Seq::empty()
    } else {
        let front = group_positions(m, keys.drop_last(), prefix, group, collection_no);
        let k = keys.last();
        if prefix.is_prefix_of(k) && m.record(k).contains_key(group) {
            front.push(m.record(k)[group].shown_in(k, collection_no))
        } else {
            front
        }
    }
}

/// A stored position can be read back, both from its folder and as the last one of its group.
pub proof fn stored_position_is_read_back(
    m: CacheModel,
    max_groups: usize,
    req: Request,
    now: TimeStamp,
)
    ensures
        inner::insertion(m, max_groups, req, now) matches Insertion::Stored(after) ==> {
            let folder = util::path_and_file(req.path).0;
            let item = inner::item_for(req, m.last_file(folder)->0, now);
            &&& inner::position_of(after, req.group, Some(folder)) == Some(item.shown_in(folder, 0))
            &&& inner::position_of(after, req.group, None) == Some(item.shown_in(folder, 0))
        },
{
}

/// Storing a position changes no other position and no other group's last folder.
pub proof fn storing_leaves_others_alone(
    m: CacheModel,
    max_groups: usize,
    req: Request,
    now: TimeStamp,
    group: Seq<char>,
    folder: Seq<char>,
)
    requires
        group != req.group || folder != util::path_and_file(req.path).0,
    ensures
        inner::insertion(m, max_groups, req, now) matches Insertion::Stored(after) ==> {
            &&& inner::position_of(after, group, Some(folder)) == inner::position_of(
                m,
                group,
                Some(folder),
            )
            &&& group != req.group ==> inner::position_of(after, group, None)
                == inner::position_of(m, group, None)
            &&& after.folders == m.folders
        },
{
    if let Insertion::Stored(after) = inner::insertion(m, max_groups, req, now) {
        if group != req.group {
            assert(after.latest.contains_key(group) == m.latest.contains_key(group));
            if m.latest.contains_key(group) {
                assert(after.latest[group] == m.latest[group]);
                let f = m.latest[group];
                assert(after.record(f).contains_key(group) == m.record(f).contains_key(group));
                if m.record(f).contains_key(group) {
                    assert(after.record(f)[group] == m.record(f)[group]);
                }
            }
        }
    }
}

/// A position that is kept by its own time is never replaced by an older one.
pub proof fn positions_never_go_back_in_time(
    m: CacheModel,
    max_groups: usize,
    req: Request,
    now: TimeStamp,
)
    requires
        req.ts is Some,
        req.use_ts,
    ensures
        inner::insertion(m, max_groups, req, now) matches Insertion::Stored(after) ==> {
            let folder = util::path_and_file(req.path).0;
            m.record(folder).contains_key(req.group) ==> after.record(
                folder,
            )[req.group].timestamp.millis() >= m.record(folder)[req.group].timestamp.millis()
        },
{
}

/// No folder has positions of more groups than it may have.
pub open spec fn within_limit(m: CacheModel, max_groups: usize) -> bool {
    forall|f: Seq<char>| #[trigger]
        m.positions.contains_key(f) ==> m.positions[f].dom().finite() && m.positions[f].dom().len()
            <= max_groups
}

/// Storing a position never takes a folder above the limit of groups.
pub proof fn storing_keeps_the_limit(
    m: CacheModel,
    max_groups: usize,
    req: Request,
    now: TimeStamp,
)
    requires
        within_limit(m, max_groups),
    ensures
        inner::insertion(m, max_groups, req, now) matches Insertion::Stored(after) ==> within_limit(
            after,
            max_groups,
        ),
{
    if let Insertion::Stored(after) = inner::insertion(m, max_groups, req, now) {
        let folder = util::path_and_file(req.path).0;
        let rec = m.record(folder);
        assert forall|f: Seq<char>| #[trigger] after.positions.contains_key(f) implies
            after.positions[f].dom().finite() && after.positions[f].dom().len() <= max_groups by {
            if f == folder {
                if !m.positions.contains_key(f) {
                    assert(rec.dom() =~= Set::empty());
                }
                assert(after.positions[f].dom() =~= rec.dom().insert(req.group));
                if rec.contains_key(req.group) {
                    assert(rec.dom().insert(req.group) =~= rec.dom());
                }
            } else {
                assert(m.positions.contains_key(f));
            }
        }
    }
}

/// What is known of a folder's directory.
#[derive(Debug, Clone, Copy)]
pub struct FolderFacts {
    /// The directory is there.
    pub exists: bool,
    /// It is a part of a recording and merged into its parent.
    pub is_collapsable: bool,
}

/// Whether a folder no longer belongs into the cache.
pub open spec fn is_stale(f: FolderFacts) -> bool {
    !f.exists || f.is_collapsable
}

/// Whether `k` is one of the keys from place `from` on, and stale.
pub open spec fn is_stale_key(
    keys: Seq<Seq<char>>,
    facts: Seq<FolderFacts>,
    from: int,
    k: Seq<char>,
) -> bool {
    exists|i: int| from <= i < keys.len() && #[trigger] keys[i] == k && is_stale(facts[i])
}

/// The folders without the stale ones.
pub open spec fn without_stale(
    m: Map<Seq<char>, FolderView>,
    keys: Seq<Seq<char>>,
    facts: Seq<FolderFacts>,
) -> Map<Seq<char>, FolderView> {
    Map::new(
        |k: Seq<char>| m.contains_key(k) && !is_stale_key(keys, facts, 0, k),
        |k: Seq<char>| m[k],
    )
}

/// The text of a backup: one line for each folder, with the folder's record behind it.
pub open spec fn backup_lines(keys: Seq<Seq<char>>, records: Seq<Seq<char>>, n: int) -> Seq<char>
    decreases n,
{
    if n <= 0 {
        Seq::empty()
    } else {
        backup_lines(keys, records, n - 1) + "\""@ + keys[n - 1] + "\":"@ + records[n - 1] + (if n
            < keys.len() {
            ",\n"@
        } else {
            "\n"@
        })
    }
}

/// The records of a backup, as they were read.
#[derive(Debug)]
pub enum BackupRecord {
    /// The positions in a folder, by group; an error stands for one that cannot be read.
    Object(Vec<(String, Result<PositionItem, String>)>),
    /// Something else than an object.
    Other,
}

/// The path of a file in a folder, where an empty folder is the root of the collection.
pub open spec fn path_in(folder: Seq<char>, file: Seq<char>) -> Seq<char> {
    if folder.len() == 0 {
        file
    } else {
        folder + "/"@ + file
    }
}

/// The path of a file in a folder.
pub fn join_file(folder: &str, file: &str) -> (r: String)
    ensures
        r@ == path_in(folder@, file@),
{
    if folder.unicode_len() == 0 {
        file.to_owned()
    } else {
        let mut r = folder.to_owned();
        r.append("/");
        r.append(file);
        r
    }
}

/// Why a restoration stopped.
pub enum Stop {
    /// A position cannot be read, for the given reason.
    Unreadable(Seq<char>),
    /// A folder has too many groups.
    TooManyGroups,
    /// A record is not an object.
    NotAnObject(Seq<char>),
}

/// The request that restores a position.
pub open spec fn restoring(folder: Seq<char>, group: Seq<char>, item: ItemView) -> Request {
    Request {
        group,
        path: path_in(folder, item.file),
        position: item.position,
        finished: item.folder_finished,
        ts: Some(item.timestamp),
        use_ts: true,
    }
}

/// A saved position that is restored is the one that was saved; it only may count as finished by
/// now, where its file has become the last one of its folder.
pub proof fn restored_position_is_the_saved_one(
    m: CacheModel,
    max_groups: usize,
    folder: Seq<char>,
    group: Seq<char>,
    item: ItemView,
    now: TimeStamp,
)
    requires
        !item.file.contains('/'),
    ensures
        inner::insertion(m, max_groups, restoring(folder, group, item), now) matches
            Insertion::Stored(after) ==> {
            let got = after.record(folder)[group];
            &&& after.record(folder).contains_key(group)
            &&& got == ItemView { folder_finished: got.folder_finished, ..item }
            &&& item.folder_finished ==> got.folder_finished
            &&& (m.last_file(folder)->0).0 != item.file ==> got == item
        },
{
    reveal_strlit("/");
    assert("/"@ =~= seq!['/']);
    if folder.len() == 0 {
        util::splitting_loses_nothing(item.file);
        assert(folder =~= Seq::empty());
    } else {
        util::splitting_undoes_joining(folder, item.file);
    }
}

/// The cache after the positions of a folder from place `i` on were restored, and why it stopped,
/// if it did.
pub open spec fn restored_groups(
    m: CacheModel,
    max_groups: usize,
    folder: Seq<char>,
    items: Seq<(String, Result<PositionItem, String>)>,
    i: int,
) -> (CacheModel, Option<Stop>)
    decreases items.len() - i,
{
    if i < 0 || i >= items.len() {
        (m, None)
    } else {
        match items[i].1 {
            Err(e) => (m, Some(Stop::Unreadable(e@))),
            Ok(item) => match inner::insertion(
                m,
                max_groups,
                restoring(folder, items[i].0@, item@),
                item.timestamp,
            ) {
                Insertion::Stored(after) => restored_groups(
                    after,
                    max_groups,
                    folder,
                    items,
                    i + 1,
                ),
                Insertion::Ignored => restored_groups(m, max_groups, folder, items, i + 1),
                Insertion::TooManyGroups => (m, Some(Stop::TooManyGroups)),
            },
        }
    }
}

/// The cache after the records from place `i` on were restored, and why it stopped, if it did.
pub open spec fn restored(
    m: CacheModel,
    max_groups: usize,
    data: Seq<(String, BackupRecord)>,
    i: int,
) -> (CacheModel, Option<Stop>)
    decreases data.len() - i,
{
    if i < 0 || i >= data.len() {
        (m, None)
    } else {
        match data[i].1 {
            BackupRecord::Other => (m, Some(Stop::NotAnObject(data[i].0@))),
            BackupRecord::Object(items) => {
                let (after, stop) = restored_groups(m, max_groups, data[i].0@, items@, 0);
                match stop {
                    Some(s) => (after, Some(s)),
                    None => restored(after, max_groups, data, i + 1),
                }
            },
        }
    }
}

/// The result that stands for the reason of a stop.
pub open spec fn stop_result(stop: Option<Stop>, r: Result<(), Error>) -> bool {
    match stop {
        None => r is Ok,
        Some(Stop::Unreadable(e)) => match r {
            Err(Error::Json(m)) => m@ == e,
            _ => false,
        },
        Some(Stop::TooManyGroups) => r is Err && r->Err_0 is TooManyGroups,
        Some(Stop::NotAnObject(f)) => match r {
            Err(Error::JsonSchemaError(m)) => m@ == "Expected object for key "@ + f,
            _ => false,
        },
    }
}

/// Requests that are kept by their own time do not depend on the present time.
proof fn now_does_not_matter(
    m: CacheModel,
    max_groups: usize,
    req: Request,
    a: TimeStamp,
    b: TimeStamp,
)
    requires
        req.ts is Some,
        req.use_ts,
    ensures
        inner::insertion(m, max_groups, req, a) == inner::insertion(m, max_groups, req, b),
{
}

/// A list of the positions of a group holds those in the folders that start with the given path,
/// each as it is stored, with the number of the collection, and no others.
pub proof fn listed_positions_are_the_stored_ones(
    m: CacheModel,
    keys: Seq<Seq<char>>,
    prefix: Seq<char>,
    group: Seq<char>,
    collection_no: usize,
    p: PositionView,
)
    ensures
        group_positions(m, keys, prefix, group, collection_no).contains(p) <==> {
            &&& keys.contains(p.folder)
            &&& prefix.is_prefix_of(p.folder)
            &&& p.collection == collection_no
            &&& m.record(p.folder).contains_key(group)
            &&& p.file == m.record(p.folder)[group].file
            &&& p.timestamp == m.record(p.folder)[group].timestamp
            &&& p.position == m.record(p.folder)[group].position
            &&& p.folder_finished == m.record(p.folder)[group].folder_finished
        },
    decreases keys.len(),
{
    let all = group_positions(m, keys, prefix, group, collection_no);
    if keys.len() > 0 {
        let front = keys.drop_last();
        let k = keys.last();
        let before = group_positions(m, front, prefix, group, collection_no);
        listed_positions_are_the_stored_ones(m, front, prefix, group, collection_no, p);
        assert(keys.contains(p.folder) <==> front.contains(p.folder) || p.folder == k) by {
            if keys.contains(p.folder) {
                let i = choose|i: int| 0 <= i < keys.len() && keys[i] == p.folder;
                if i < front.len() {
                    assert(front[i] == p.folder);
                }
            }
            if front.contains(p.folder) {
                let i = choose|i: int| 0 <= i < front.len() && front[i] == p.folder;
                assert(keys[i] == p.folder);
            }
            assert(keys[keys.len() - 1] == k);
        }
        if prefix.is_prefix_of(k) && m.record(k).contains_key(group) {
            let shown = m.record(k)[group].shown_in(k, collection_no);
            assert(all == before.push(shown));
            assert(all.contains(p) <==> before.contains(p) || p == shown) by {
                if all.contains(p) {
                    let i = choose|i: int| 0 <= i < all.len() && all[i] == p;
                    if i < before.len() {
                        assert(before[i] == p);
                    }
                }
                if before.contains(p) {
                    let i = choose|i: int| 0 <= i < before.len() && before[i] == p;
                    assert(all[i] == p);
                }
                assert(all[all.len() - 1] == shown);
            }
            if p.folder == k && p.file == shown.file && p.timestamp == shown.timestamp && p.position
                == shown.position && p.folder_finished == shown.folder_finished && p.collection
                == shown.collection {
                assert(p =~= shown);
            }
        }
    } else {
        assert(all =~= Seq::empty());
    }
}

/// A list was continued with the positions of a group in the folders that start with a path: what
/// was in it stays, what comes is of such a folder and of the collection, and no such folder in
/// which the group has a position is missing.
pub open spec fn lists_positions(
    m: CacheModel,
    prefix: Seq<char>,
    group: Seq<char>,
    collection_no: usize,
    before: Seq<Position>,
    after: Seq<Position>,
) -> bool {
    &&& before.len() <= after.len()
    &&& forall|i: int| 0 <= i < before.len() ==> (#[trigger] after[i])@ == before[i]@
    &&& forall|i: int|
        before.len() <= i < after.len() ==> {
            let p = #[trigger] after[i];
            &&& prefix.is_prefix_of(p.folder@)
            &&& p.collection == collection_no
            &&& m.record(p.folder@).contains_key(group)
            &&& p.file@ == m.record(p.folder@)[group].file
            &&& p.position == m.record(p.folder@)[group].position
        }
    &&& forall|k: Seq<char>| #[trigger]
        m.positions.contains_key(k) && prefix.is_prefix_of(k) && m.positions[k].contains_key(group)
            ==> exists|i: int|
            before.len() <= i < after.len() && (#[trigger] after[i]).folder@ == k
}

/// The positions that are put behind a list are all there are.
proof fn list_is_complete(
    c: &CacheInner,
    prefix: Seq<char>,
    group: Seq<char>,
    collection_no: usize,
    before: Seq<Position>,
    after: Seq<Position>,
)
    requires
        c.wf(),
        position::position_views(after) == position::position_views(before) + group_positions(
            c@,
            c.pos_folder.keys(),
            prefix,
            group,
            collection_no,
        ),
    ensures
        lists_positions(c@, prefix, group, collection_no, before, after),
{
    let m = c@;
    let keys = c.pos_folder.keys();
    let more = group_positions(m, keys, prefix, group, collection_no);
    let all = position::position_views(after);
    let n = before.len() as int;
    assert(all.len() == n + more.len());
    assert(after.len() == all.len());
    assert forall|i: int| 0 <= i < n implies (#[trigger] after[i])@ == before[i]@ by {
        assert(all[i] == after[i]@);
        assert(position::position_views(before)[i] == before[i]@);
    }
    assert forall|i: int| n <= i < after.len() implies {
        let p = #[trigger] after[i];
        &&& prefix.is_prefix_of(p.folder@)
        &&& p.collection == collection_no
        &&& m.record(p.folder@).contains_key(group)
        &&& p.file@ == m.record(p.folder@)[group].file
        &&& p.position == m.record(p.folder@)[group].position
    } by {
        assert(all[i] == after[i]@);
        assert(all[i] == more[i - n]);
        assert(more.contains(after[i]@));
        listed_positions_are_the_stored_ones(m, keys, prefix, group, collection_no, after[i]@);
    }
    assert forall|k: Seq<char>| #[trigger]
        m.positions.contains_key(k) && prefix.is_prefix_of(k) && m.positions[k].contains_key(
            group,
        ) implies exists|i: int| n <= i < after.len() && (#[trigger] after[i]).folder@ == k by {
        c.pos_folder.reads_off();
        assert(c.pos_folder@.contains_key(k));
        let j = choose|j: int| 0 <= j < c.pos_folder.size() && #[trigger] c.pos_folder.key(j) == k;
        assert(keys[j] == k);
        let p = m.record(k)[group].shown_in(k, collection_no);
        listed_positions_are_the_stored_ones(m, keys, prefix, group, collection_no, p);
        let i = choose|i: int| 0 <= i < more.len() && more[i] == p;
        assert(all[n + i] == p);
        assert(all[n + i] == after[n + i]@);
        assert(after[n + i].folder@ == k);
    }
}

/// Positions are listed in the order of their folders, and those of folders that come later are put
/// behind: a list for two runs of folders is that of the first and then that of the second.
pub proof fn lists_follow_the_folders(
    m: CacheModel,
    a: Seq<Seq<char>>,
    b: Seq<Seq<char>>,
    prefix: Seq<char>,
    group: Seq<char>,
    collection_no: usize,
)
    ensures
        group_positions(m, a + b, prefix, group, collection_no) == group_positions(
            m,
            a,
            prefix,
            group,
            collection_no,
        ) + group_positions(m, b, prefix, group, collection_no),
    decreases b.len(),
{
    if b.len() == 0 {
        assert(a + b =~= a);
        assert(group_positions(m, a + b, prefix, group, collection_no) =~= group_positions(
            m,
            a,
            prefix,
            group,
            collection_no,
        ) + group_positions(m, b, prefix, group, collection_no));
    } else {
        lists_follow_the_folders(m, a, b.drop_last(), prefix, group, collection_no);
        assert((a + b).drop_last() =~= a + b.drop_last());
        assert((a + b).last() == b.last());
        assert(group_positions(m, a + b, prefix, group, collection_no) =~= group_positions(
            m,
            a,
            prefix,
            group,
            collection_no,
        ) + group_positions(m, b, prefix, group, collection_no));
    }
}

/// Cleaning up keeps a folder exactly if its directory is there and not merged into its parent, and
/// keeps it as it is.
pub proof fn cleaning_up_keeps_what_is_there(
    m: Map<Seq<char>, FolderView>,
    keys: Seq<Seq<char>>,
    facts: Seq<FolderFacts>,
    i: int,
)
    requires
        0 <= i < keys.len(),
        keys.len() == facts.len(),
        keys.no_duplicates(),
        m.contains_key(keys[i]),
    ensures
        without_stale(m, keys, facts).contains_key(keys[i]) <==> facts[i].exists
            && !facts[i].is_collapsable,
        without_stale(m, keys, facts).contains_key(keys[i]) ==> without_stale(
            m,
            keys,
            facts,
        )[keys[i]] == m[keys[i]],
        forall|k: Seq<char>| #[trigger]
            without_stale(m, keys, facts).contains_key(k) ==> m.contains_key(k),
{
    if is_stale_key(keys, facts, 0, keys[i]) {
        let j = choose|j: int| 0 <= j < keys.len() && #[trigger] keys[j] == keys[i] && is_stale(
            facts[j],
        );
        assert(j == i);
    } else if is_stale(facts[i]) {
        assert(is_stale_key(keys, facts, 0, keys[i]));
    }
}

/// A backup of one more folder is the backup so far, with a comma instead of nothing at the end of
/// its last line, and one more line, with the path in quotes and the record behind a colon.
pub proof fn backup_has_a_line_for_each_folder(
    keys: Seq<Seq<char>>,
    records: Seq<Seq<char>>,
    k: Seq<char>,
    record: Seq<char>,
)
    requires
        keys.len() == records.len(),
    ensures
        ({
            let n = keys.len() as int;
            let before = backup_lines(keys, records, n);
            let after = backup_lines(keys.push(k), records.push(record), n + 1);
            let line = seq!['"'] + k + seq!['"', ':'] + record + seq!['\n'];
            &&& n == 0 ==> after == line
            &&& n > 0 ==> before.last() == '\n' && after == before.drop_last() + seq![',', '\n']
                + line
        }),
{
    let n = keys.len() as int;
    let before = backup_lines(keys, records, n);
    let (more, texts) = (keys.push(k), records.push(record));
    let after = backup_lines(more, texts, n + 1);
    reveal_strlit("\"");
    reveal_strlit("\":");
    reveal_strlit(",\n");
    reveal_strlit("\n");
    assert("\""@ =~= seq!['"']);
    assert("\":"@ =~= seq!['"', ':']);
    assert(",\n"@ =~= seq![',', '\n']);
    assert("\n"@ =~= seq!['\n']);
    let line = seq!['"'] + k + seq!['"', ':'] + record + seq!['\n'];
    if n == 0 {
        assert(backup_lines(more, texts, 0) =~= Seq::empty());
        assert(after =~= line);
    } else {
        earlier_lines_stay(keys, records, k, record, n - 1);
        let earlier = backup_lines(keys, records, n - 1);
        assert(more[n - 1] == keys[n - 1]);
        assert(texts[n - 1] == records[n - 1]);
        let last = "\""@ + keys[n - 1] + "\":"@ + records[n - 1];
        assert(before =~= earlier + last + "\n"@);
        assert(before.drop_last() =~= earlier + last);
        assert(backup_lines(more, texts, n) =~= earlier + last + ",\n"@);
        assert(after =~= before.drop_last() + seq![',', '\n'] + line);
    }
}

/// Lines that are not the last one do not depend on how many follow.
proof fn earlier_lines_stay(
    keys: Seq<Seq<char>>,
    records: Seq<Seq<char>>,
    k: Seq<char>,
    record: Seq<char>,
    n: int,
)
    requires
        keys.len() == records.len(),
        0 <= n < keys.len(),
    ensures
        backup_lines(keys.push(k), records.push(record), n) == backup_lines(keys, records, n),
    decreases n,
{
    if n > 0 {
        earlier_lines_stay(keys, records, k, record, n - 1);
        assert(keys.push(k)[n - 1] == keys[n - 1]);
        assert(records.push(record)[n - 1] == records[n - 1]);
    }
}

/// A position of one cache is in another one too, there or in a later version.
pub open spec fn is_kept(m: CacheModel, after: CacheModel, f: Seq<char>, g: Seq<char>) -> bool {
    m.record(f).contains_key(g) ==> after.record(f).contains_key(g) && after.record(
        f,
    )[g].timestamp.millis() >= m.record(f)[g].timestamp.millis()
}

/// Restoring one position keeps all that are there, or replaces one by a version that is not older.
proof fn restoring_one_keeps_others(
    m: CacheModel,
    max_groups: usize,
    folder: Seq<char>,
    group: Seq<char>,
    item: ItemView,
    now: TimeStamp,
    f: Seq<char>,
    g: Seq<char>,
)
    ensures
        inner::insertion(m, max_groups, restoring(folder, group, item), now) matches
            Insertion::Stored(after) ==> is_kept(m, after, f, g) && after.folders == m.folders,
{
}

/// Restoring positions of a folder loses none that is there, and replaces it by a version at most
/// that is not older; it does not change the folders.
pub proof fn restoring_groups_loses_nothing(
    m: CacheModel,
    max_groups: usize,
    folder: Seq<char>,
    items: Seq<(String, Result<PositionItem, String>)>,
    i: int,
    f: Seq<char>,
    g: Seq<char>,
)
    ensures
        is_kept(m, restored_groups(m, max_groups, folder, items, i).0, f, g),
        restored_groups(m, max_groups, folder, items, i).0.folders == m.folders,
    decreases items.len() - i,
{
    if 0 <= i < items.len() {
        if let Ok(item) = items[i].1 {
            restoring_one_keeps_others(
                m,
                max_groups,
                folder,
                items[i].0@,
                item@,
                item.timestamp,
                f,
                g,
            );
            match inner::insertion(
                m,
                max_groups,
                restoring(folder, items[i].0@, item@),
                item.timestamp,
            ) {
                Insertion::Stored(after) => {
                    restoring_groups_loses_nothing(after, max_groups, folder, items, i + 1, f, g);
                },
                Insertion::Ignored => {
                    restoring_groups_loses_nothing(m, max_groups, folder, items, i + 1, f, g);
                },
                Insertion::TooManyGroups => {},
            }
        }
    }
}

/// Restoring a backup loses no position that is there, and replaces it by a version at most that is
/// not older; it does not change the folders.
pub proof fn restoring_loses_nothing(
    m: CacheModel,
    max_groups: usize,
    data: Seq<(String, BackupRecord)>,
    i: int,
    f: Seq<char>,
    g: Seq<char>,
)
    ensures
        is_kept(m, restored(m, max_groups, data, i).0, f, g),
        restored(m, max_groups, data, i).0.folders == m.folders,
    decreases data.len() - i,
{
    if 0 <= i < data.len() {
        if let BackupRecord::Object(items) = data[i].1 {
            let (after, stop) = restored_groups(m, max_groups, data[i].0@, items@, 0);
            restoring_groups_loses_nothing(m, max_groups, data[i].0@, items@, 0, f, g);
            if stop is None {
                restoring_loses_nothing(after, max_groups, data, i + 1, f, g);
            }
        }
    }
}

/// A saved position of a folder that can have positions is in the cache after a restoration that
/// was not stopped, as it was saved or in a version that is not older.
pub proof fn restored_groups_are_there(
    m: CacheModel,
    max_groups: usize,
    folder: Seq<char>,
    items: Seq<(String, Result<PositionItem, String>)>,
    i: int,
    j: int,
)
    requires
        0 <= i <= j < items.len(),
        restored_groups(m, max_groups, folder, items, i).1 is None,
        inner::is_playable(m, folder),
        items[j].1 is Ok ==> !items[j].1->Ok_0.file@.contains('/'),
    ensures
        items[j].1 is Ok,
        ({
            let after = restored_groups(m, max_groups, folder, items, i).0;
            &&& after.record(folder).contains_key(items[j].0@)
            &&& after.record(folder)[items[j].0@].timestamp.millis()
                >= items[j].1->Ok_0.timestamp.millis()
        }),
    decreases items.len() - i,
{
    if let Ok(item) = items[i].1 {
        let req = restoring(folder, items[i].0@, item@);
        let got = inner::insertion(m, max_groups, req, item.timestamp);
        if j == i {
            reveal_strlit("/");
            assert("/"@ =~= seq!['/']);
            assert(inner::is_path_of(req.path, folder, item@.file)) by {
                if folder.len() == 0 {
                    assert(req.path == item@.file);
                }
            }
            inner::refusals_have_reasons(m, max_groups, req, item.timestamp, folder, item@.file);
            if let Insertion::Stored(after) = got {
                inner::stored_position_is_the_requested_one(
                    m,
                    max_groups,
                    req,
                    item.timestamp,
                    folder,
                    item@.file,
                );
                restoring_groups_loses_nothing(
                    after,
                    max_groups,
                    folder,
                    items,
                    i + 1,
                    folder,
                    items[i].0@,
                );
            } else {
                restoring_groups_loses_nothing(
                    m,
                    max_groups,
                    folder,
                    items,
                    i + 1,
                    folder,
                    items[i].0@,
                );
            }
        } else {
            match got {
                Insertion::Stored(after) => {
                    restored_groups_are_there(after, max_groups, folder, items, i + 1, j);
                },
                _ => {
                    restored_groups_are_there(m, max_groups, folder, items, i + 1, j);
                },
            }
        }
    }
}

/// A restoration that fails tells why: a position that cannot be read, a record that is no object,
/// or a folder with too many groups.
pub proof fn failed_restoration_tells_why(stop: Option<Stop>, r: Result<(), Error>)
    requires
        stop_result(stop, r),
    ensures
        r is Ok <==> stop is None,
        r is Err ==> r->Err_0 is Json || r->Err_0 is JsonSchemaError || r->Err_0 is TooManyGroups,
        r is Err && r->Err_0 is TooManyGroups <==> stop is Some && stop->0 is TooManyGroups,
        r is Err && r->Err_0 is Json <==> stop is Some && stop->0 is Unreadable,
{
}

impl CacheInner {
    /// The outcome of flushing the three tables: the first error, if there is one.
    pub fn flush(
        db: Result<usize, Error>,
        pos_folder: Result<usize, Error>,
        pos_latest: Result<usize, Error>,
    ) -> (r: Result<(), Error>)
        ensures
            r is Ok <==> db is Ok && pos_folder is Ok && pos_latest is Ok,
            db is Err ==> r == Err::<(), Error>(db->Err_0),
            db is Ok && pos_folder is Err ==> r == Err::<(), Error>(pos_folder->Err_0),
            db is Ok && pos_folder is Ok && pos_latest is Err ==> r == Err::<(), Error>(
                pos_latest->Err_0,
            ),
    {
        match db {
            Err(e) => Err(e),
            Ok(_) => match pos_folder {
                Err(e) => Err(e),
                Ok(_) => match pos_latest {
                    Err(e) => Err(e),
                    Ok(_) => Ok(()),
                },
            },
        }
    }

    /// Adds the positions of a group in the folders that start with `prefix` to a list.
    fn positions_from_iter(
        &self,
        prefix: &str,
        group: &str,
        collection_no: usize,
        res: &mut Vec<Position>,
    )
        requires
            self.wf(),
        ensures
            position::position_views(final(res)@) == position::position_views(old(res)@)
                + group_positions(
                self@,
                self.pos_folder.keys(),
                prefix@,
                group@,
                collection_no,
            ),
    {
        let ghost keys = self.pos_folder.keys();
        let ghost start = position::position_views(res@);
        let n = self.pos_folder.len();
        let mut i: usize = 0;
        assert(keys.take(0) =~= Seq::empty());
        assert(start + Seq::<PositionView>::empty() =~= start);
        while i < n
            invariant
                self.wf(),
                n == self.pos_folder.size(),
                keys == self.pos_folder.keys(),
                i <= n,
                position::position_views(res@) == start + group_positions(
                    self@,
                    keys.take(i as int),
                    prefix@,
                    group@,
                    collection_no,
                ),
            decreases n - i,
        {
            let k = self.pos_folder.key_at(i);
            let rec = self.pos_folder.value_at(i);
            let ghost before = res@;
            assert(keys[i as int] == k@);
            assert(self@.record(k@) == inner::record_view(*rec));
            assert(keys.take(i + 1).drop_last() =~= keys.take(i as int));
            assert(keys.take(i + 1).last() == k@);
            if text::has_prefix(k, prefix) {
                if let Some(item) = rec.get(group) {
                    let p = item.to_position(k, collection_no);
                    let ghost pv = p@;
                    res.push(p);
                    assert(position::position_views(res@) =~= position::position_views(
                        before,
                    ).push(pv));
                }
            }
            assert(position::position_views(res@) =~= start + group_positions(
                self@,
                keys.take(i + 1),
                prefix@,
                group@,
                collection_no,
            ));
            i += 1;
        }
        assert(keys.take(n as int) =~= keys);
    }

    /// Adds the positions of a group in a folder and below it to a list.
    pub fn get_positions_recursive(
        &self,
        group: &str,
        folder: &str,
        collection_no: usize,
        res: &mut Vec<Position>,
    )
        requires
            self.wf(),
        ensures
            position::position_views(final(res)@) == position::position_views(old(res)@)
                + group_positions(
                self@,
                self.pos_folder.keys(),
                folder@,
                group@,
                collection_no,
            ),
            lists_positions(self@, folder@, group@, collection_no, old(res)@, final(res)@),
    {
        let ghost before = res@;
        self.positions_from_iter(folder, group, collection_no, res);
        proof {
            list_is_complete(self, folder@, group@, collection_no, before, res@);
        }
    }

    /// Adds all positions of a group to a list.
    pub fn get_all_positions_for_group(
        &self,
        group: &str,
        collection_no: usize,
        res: &mut Vec<Position>,
    )
        requires
            self.wf(),
        ensures
            position::position_views(final(res)@) == position::position_views(old(res)@)
                + group_positions(
                self@,
                self.pos_folder.keys(),
                Seq::empty(),
                group@,
                collection_no,
            ),
            lists_positions(self@, Seq::empty(), group@, collection_no, old(res)@, final(res)@),
    {
        proof {
            reveal_strlit("");
            assert(""@ =~= Seq::empty());
        }
        let ghost before = res@;
        self.positions_from_iter("", group, collection_no, res);
        proof {
            list_is_complete(self, Seq::empty(), group@, collection_no, before, res@);
        }
    }

    /// Marks a subfolder as finished if the group has finished it.
    pub fn update_subfolder(&self, group: &str, sf: &mut AudioFolderShort)
        requires
            self.wf(),
        ensures
            final(sf)@ == (ShortView {
                finished: self@.record(old(sf)@.path).contains_key(group@) && self@.record(
                    old(sf)@.path,
                )[group@].folder_finished,
                ..old(sf)@
            }),
            final(sf).finished <==> self@.positions.contains_key(old(sf).path@)
                && self@.positions[old(sf).path@].contains_key(group@)
                && self@.positions[old(sf).path@][group@].folder_finished,
            final(sf).name == old(sf).name,
            final(sf).path == old(sf).path,
            final(sf).modified == old(sf).modified,
            final(sf).is_file == old(sf).is_file,
    {
        sf.finished = self.is_finished(group, sf.path.as_str());
    }

    /// Marks the subfolders that the group has finished, and only those.
    pub fn update_subfolders(&self, group: &str, subfolders: &mut Vec<AudioFolderShort>)
        requires
            self.wf(),
        ensures
            audio_meta::short_views(final(subfolders)@) == audio_meta::short_views(
                old(subfolders)@,
            ).map_values(
                |s: ShortView|
                    ShortView {
                        finished: self@.record(s.path).contains_key(group@) && self@.record(
                            s.path,
                        )[group@].folder_finished,
                        ..s
                    },
            ),
            final(subfolders)@.len() == old(subfolders)@.len(),
            forall|i: int|
                0 <= i < final(subfolders)@.len() ==> {
                    let (was, is) = (old(subfolders)@[i], #[trigger] final(subfolders)@[i]);
                    &&& is.finished <==> self@.positions.contains_key(was.path@)
                        && self@.positions[was.path@].contains_key(group@)
                        && self@.positions[was.path@][group@].folder_finished
                    &&& is.name == was.name && is.path == was.path && is.modified == was.modified
                        && is.is_file == was.is_file
                },
    {
        let ghost start = subfolders@;
        let n = subfolders.len();
        let mut i: usize = 0;
        while i < n
            invariant
                self.wf(),
                start == old(subfolders)@,
                subfolders@.len() == n,
                n == start.len(),
                i <= n,
                forall|j: int| i <= j < n ==> #[trigger] subfolders@[j] == start[j],
                forall|j: int|
                    0 <= j < i ==> (#[trigger] subfolders@[j])@ == (ShortView {
                        finished: self@.record(start[j]@.path).contains_key(group@) && self@.record(
                            start[j]@.path,
                        )[group@].folder_finished,
                        ..start[j]@
                    }),
                forall|j: int|
                    0 <= j < i ==> {
                        let (was, is) = (start[j], #[trigger] subfolders@[j]);
                        &&& is.finished <==> self@.positions.contains_key(was.path@)
                            && self@.positions[was.path@].contains_key(group@)
                            && self@.positions[was.path@][group@].folder_finished
                        &&& is.name == was.name && is.path == was.path && is.modified
                            == was.modified && is.is_file == was.is_file
                    },
            decreases n - i,
        {
            self.update_subfolder(group, &mut subfolders[i]);
            i += 1;
        }
        assert(audio_meta::short_views(subfolders@) =~= audio_meta::short_views(start).map_values(
            |s: ShortView|
                ShortView {
                    finished: self@.record(s.path).contains_key(group@) && self@.record(
                        s.path,
                    )[group@].folder_finished,
                    ..s
                },
        ));
    }

    /// Takes out the folders whose directory is gone or has become a part of its parent; `facts`
    /// tells of the directory of each folder, in the order of their paths.
    pub fn clean_up_folders(&mut self, facts: &Vec<FolderFacts>)
        requires
            old(self).wf(),
            facts@.len() == old(self).folders.size(),
        ensures
            final(self).wf(),
            final(self).same_setup(old(self)),
            final(self).same_numbers(old(self)),
            final(self)@ == (CacheModel {
                folders: without_stale(old(self)@.folders, old(self).folders.keys(), facts@),
                ..old(self)@
            }),
    {
        let ghost keys = self.folders.keys();
        let ghost all = self@.folders;
        let ghost rows = self.folders@;
        let mut i: usize = self.folders.len();
        proof {
            self.folders.reads_off();
        }
        while i > 0
            invariant
                self.wf(),
                self.same_setup(old(self)),
                self.same_numbers(old(self)),
                self.pos_folder == old(self).pos_folder,
                self.pos_latest == old(self).pos_latest,
                i <= self.folders.size(),
                i <= keys.len(),
                keys.len() == facts@.len(),
                forall|a: int, b: int|
                    0 <= a < keys.len() && 0 <= b < keys.len() && #[trigger] keys[a]
                        == #[trigger] keys[b] ==> a == b,
                forall|j: int| 0 <= j < i ==> self.folders.key(j) == #[trigger] keys[j],
                forall|k: Seq<char>|
                    (#[trigger] self.folders@.contains_key(k)) == (rows.contains_key(k)
                        && !is_stale_key(keys, facts@, i as int, k)),
                forall|k: Seq<char>| #[trigger]
                    self.folders@.contains_key(k) ==> self.folders@[k] == rows[k],
            decreases i,
        {
            let fact = facts[i - 1];
            let ghost was = self.folders;
            assert(self.folders.key(i - 1) == keys[i - 1]);
            if !fact.exists || fact.is_collapsable {
                self.folders.remove_at(i - 1);
                assert forall|k: Seq<char>|
                    (#[trigger] self.folders@.contains_key(k)) == (rows.contains_key(k)
                        && !is_stale_key(keys, facts@, i - 1, k)) by {
                    assert(was@.contains_key(k) == (rows.contains_key(k) && !is_stale_key(
                        keys,
                        facts@,
                        i as int,
                        k,
                    )));
                    if k == keys[i - 1] {
                        assert(is_stale_key(keys, facts@, i - 1, k));
                    } else if is_stale_key(keys, facts@, i - 1, k) {
                        let j = choose|j: int|
                            i - 1 <= j < keys.len() && #[trigger] keys[j] == k && is_stale(
                                facts@[j],
                            );
                        assert(is_stale_key(keys, facts@, i as int, k)) by {
                            assert(keys[j] == k);
                        }
                    }
                }
                assert forall|j: int| 0 <= j < i - 1 implies self.folders.key(j)
                    == #[trigger] keys[j] by {
                    assert(was.key(j) == keys[j]);
                }
                assert forall|k: Seq<char>| #[trigger] self.folders@.contains_key(k) implies
                    self.folders@[k] == rows[k] by {
                    assert(was@.contains_key(k));
                }
            } else {
                assert forall|k: Seq<char>| is_stale_key(keys, facts@, i - 1, k) == is_stale_key(
                    keys,
                    facts@,
                    i as int,
                    k,
                ) by {
                    if is_stale_key(keys, facts@, i - 1, k) {
                        let j = choose|j: int|
                            i - 1 <= j < keys.len() && #[trigger] keys[j] == k && is_stale(
                                facts@[j],
                            );
                        assert(keys[j] == k);
                    }
                }
            }
            i -= 1;
        }
        assert(self@.folders =~= without_stale(all, keys, facts@)) by {
            assert forall|k: Seq<char>| #[trigger] self@.folders.dom().contains(k) ==
                without_stale(all, keys, facts@).dom().contains(k) by {
                assert(self.folders@.contains_key(k) == (rows.contains_key(k) && !is_stale_key(
                    keys,
                    facts@,
                    0,
                    k,
                )));
            }
        }
    }

    /// Takes out the positions in folders that are not in the cache.
    pub fn clean_up_positions(&mut self)
        requires
            old(self).wf(),
        ensures
            final(self).wf(),
            final(self).same_setup(old(self)),
            final(self).same_numbers(old(self)),
            final(self)@ == (CacheModel {
                positions: old(self)@.positions.restrict(old(self)@.folders.dom()),
                ..old(self)@
            }),
            forall|k: Seq<char>| #[trigger]
                final(self)@.positions.contains_key(k) <==> old(self)@.positions.contains_key(k)
                    && old(self)@.folders.contains_key(k),
            forall|k: Seq<char>| #[trigger]
                final(self)@.positions.contains_key(k) ==> final(self)@.positions[k]
                    == old(self)@.positions[k],
    {
        let ghost keys = self.pos_folder.keys();
        let ghost rows = self.pos_folder@;
        let mut i: usize = self.pos_folder.len();
        proof {
            self.pos_folder.reads_off();
        }
        while i > 0
            invariant
                self.wf(),
                self.same_setup(old(self)),
                self.same_numbers(old(self)),
                self.folders == old(self).folders,
                self.pos_latest == old(self).pos_latest,
                i <= self.pos_folder.size(),
                i <= keys.len(),
                forall|j: int| 0 <= j < i ==> self.pos_folder.key(j) == #[trigger] keys[j],
                forall|j: int|
                    i <= j < self.pos_folder.size() ==> self.folders@.contains_key(
                        #[trigger] self.pos_folder.key(j),
                    ),
                forall|k: Seq<char>| #[trigger]
                    self.pos_folder@.contains_key(k) ==> rows.contains_key(k)
                        && self.pos_folder@[k] == rows[k],
                forall|k: Seq<char>| #[trigger]
                    rows.contains_key(k) && self.folders@.contains_key(k)
                        ==> self.pos_folder@.contains_key(k),
            decreases i,
        {
            let ghost was = self.pos_folder;
            let k = self.pos_folder.key_at(i - 1).to_owned();
            assert(was.key(i - 1) == keys[i - 1]);
            if !self.has_key(k.as_str()) {
                self.pos_folder.remove_at(i - 1);
                assert forall|j: int| 0 <= j < i - 1 implies self.pos_folder.key(j)
                    == #[trigger] keys[j] by {
                    assert(was.key(j) == keys[j]);
                }
                assert forall|j: int|
                    i - 1 <= j < self.pos_folder.size() implies self.folders@.contains_key(
                    #[trigger] self.pos_folder.key(j),
                ) by {
                    assert(self.pos_folder.key(j) == was.key(j + 1));
                }
                assert forall|q: Seq<char>| #[trigger] self.pos_folder@.contains_key(q) implies
                    rows.contains_key(q) && self.pos_folder@[q] == rows[q] by {
                    assert(was@.contains_key(q));
                }
            }
            i -= 1;
        }
        proof {
            self.pos_folder.reads_off();
            let want = old(self)@.positions.restrict(old(self)@.folders.dom());
            assert forall|k: Seq<char>| #[trigger] self@.positions.dom().contains(k) implies
                want.dom().contains(k) by {
                assert(self.pos_folder@.contains_key(k));
                let j = choose|j: int|
                    0 <= j < self.pos_folder.size() && #[trigger] self.pos_folder.key(j) == k;
                assert(self.folders@.contains_key(self.pos_folder.key(j)));
            }
            assert forall|k: Seq<char>| #[trigger] want.dom().contains(k) implies
                self@.positions.dom().contains(k) by {
                assert(rows.contains_key(k) && self.folders@.contains_key(k));
            }
            assert(self@.positions =~= want);
        }
    }

    /// The text of a backup of all positions; `records` holds the text of each folder's record,
    /// in the order of the folders.
    pub fn write_json_positions(&self, records: &Vec<String>) -> (r: String)
        requires
            self.wf(),
            records@.len() == self.pos_folder.size(),
        ensures
            r@ == "{"@ + backup_lines(
                self.pos_folder.keys(),
                records@.map_values(|s: String| s@),
                records@.len() as int,
            ) + "}"@,
    {
        let ghost keys = self.pos_folder.keys();
        let ghost texts = records@.map_values(|s: String| s@);
        let n = records.len();
        let mut out = "{".to_owned();
        let mut i: usize = 0;
        assert(out@ =~= "{"@ + backup_lines(keys, texts, 0));
        while i < n
            invariant
                i <= n,
                n == self.pos_folder.size(),
                n == records@.len(),
                keys == self.pos_folder.keys(),
                texts == records@.map_values(|s: String| s@),
                out@ == "{"@ + backup_lines(keys, texts, i as int),
            decreases n - i,
        {
            let ghost before = out@;
            out.append("\"");
            out.append(self.pos_folder.key_at(i));
            out.append("\":");
            out.append(records[i].as_str());
            if i < n - 1 {
                out.append(",\n");
            } else {
                out.append("\n");
            }
            assert(texts[i as int] == records@[i as int]@);
            i += 1;
            assert(out@ =~= "{"@ + backup_lines(keys, texts, i as int));
        }
        out.append("}");
        out
    }

    /// Restores the positions of one folder.
    fn read_json_record(
        &mut self,
        folder: &str,
        items: &Vec<(String, Result<PositionItem, String>)>,
    ) -> (r: Result<(), Error>)
        requires
            old(self).wf(),
        ensures
            final(self).wf(),
            final(self).same_setup(old(self)),
            final(self).same_numbers(old(self)),
            final(self)@ == restored_groups(
                old(self)@,
                old(self).max_groups,
                folder@,
                items@,
                0,
            ).0,
            stop_result(
                restored_groups(old(self)@, old(self).max_groups, folder@, items@, 0).1,
                r,
            ),
    {
        let n = items.len();
        let mut i: usize = 0;
        while i < n
            invariant
                self.wf(),
                self.same_setup(old(self)),
                self.same_numbers(old(self)),
                i <= n,
                n == items@.len(),
                restored_groups(self@, self.max_groups, folder@, items@, i as int)
                    == restored_groups(old(self)@, old(self).max_groups, folder@, items@, 0),
            decreases n - i,
        {
            match &items[i].1 {
                Err(e) => {
                    return Err(Error::Json(e.clone()));
                },
                Ok(item) => {
                    let path = join_file(folder, item.file.as_str());
                    let ghost req = restoring(folder@, items@[i as int].0@, item@);
                    let ghost before = self@;
                    let res = self.insert_position(
                        items[i].0.as_str(),
                        path.as_str(),
                        item.position,
                        item.folder_finished,
                        Some(item.timestamp),
                        true,
                    );
                    proof {
                        let now = choose|now: TimeStamp|
                            inner::outcome(
                                #[trigger] inner::insertion(before, self.max_groups, req, now),
                                before,
                                self@,
                                res,
                            );
                        now_does_not_matter(before, self.max_groups, req, now, item.timestamp);
                    }
                    match res {
                        Ok(_) => {},
                        Err(Error::IgnoredPosition) => {},
                        Err(e) => {
                            return Err(e);
                        },
                    }
                },
            }
            i += 1;
        }
        Ok(())
    }

    /// Restores positions from a backup.
    ///
    /// Positions that are older than those in the cache, or of folders without playable files,
    /// are passed over; anything else that goes wrong stops the restoration where it is.
    pub fn read_json_positions(&mut self, data: &Vec<(String, BackupRecord)>) -> (r: Result<
        (),
        Error,
    >)
        requires
            old(self).wf(),
        ensures
            final(self).wf(),
            final(self).same_setup(old(self)),
            final(self).same_numbers(old(self)),
            final(self)@ == restored(old(self)@, old(self).max_groups, data@, 0).0,
            stop_result(restored(old(self)@, old(self).max_groups, data@, 0).1, r),
    {
        let n = data.len();
        let mut i: usize = 0;
        while i < n
            invariant
                self.wf(),
                self.same_setup(old(self)),
                self.same_numbers(old(self)),
                i <= n,
                n == data@.len(),
                restored(self@, self.max_groups, data@, i as int) == restored(
                    old(self)@,
                    old(self).max_groups,
                    data@,
                    0,
                ),
            decreases n - i,
        {
            match &data[i].1 {
                BackupRecord::Object(items) => {
                    match self.read_json_record(data[i].0.as_str(), items) {
                        Ok(_) => {},
                        Err(e) => {
                            return Err(e);
                        },
                    }
                },
                BackupRecord::Other => {
                    let mut msg = "Expected object for key ".to_owned();
                    msg.append(data[i].0.as_str());
                    return Err(Error::JsonSchemaError(msg));
                },
            }
            i += 1;
        }
        Ok(())
    }

    /// Stores what was listed of a directory; it comes back if it is asked for.
    pub fn force_update(
        &mut self,
        dir_path: &str,
        listed: Result<AudioFolderInner, Error>,
        ret: bool,
    ) -> (r: Result<Option<&AudioFolderInner>, Error>)
        requires
            old(self).wf(),
            listed is Ok ==> old(self).file_counter < usize::MAX,
        ensures
            final(self).wf(),
            final(self).same_setup(old(self)),
            match listed {
                Ok(af) => {
                    &&& final(self)@ == (CacheModel {
                        folders: old(self)@.folders.insert(dir_path@, af@),
                        ..old(self)@
                    })
                    &&& final(self).file_counter == old(self).file_counter + 1
                    &&& shuffle::numbered_texts(final(self).shuffle_idx_map)
                        == shuffle::numbered_texts(old(self).shuffle_idx_map).insert(
                        old(self).file_counter,
                        dir_path@,
                    )
                    &&& match r {
                        Ok(Some(f)) => ret && f@ == af@,
                        Ok(None) => !ret,
                        Err(_) => false,
                    }
                },
                Err(e) => {
                    &&& *final(self) == *old(self)
                    &&& r is Err
                    &&& r->Err_0 == e
                },
            },
    {
        match listed {
            Ok(af) => {
                self.update(dir_path, af);
                if ret {
                    Ok(self.get(dir_path))
                } else {
                    Ok(None)
                }
            },
            Err(e) => Err(e),
        }
    }
}

/// The text of a backup is one object, which holds nothing where there are no positions.
pub proof fn backup_is_one_object(c: &CacheInner, records: &Vec<String>, r: String)
    requires
        c.wf(),
        records@.len() == c.pos_folder.size(),
        call_ensures(CacheInner::write_json_positions, (c, records), r),
    ensures
        r@.len() >= 2,
        r@[0] == '{',
        r@.last() == '}',
        records@.len() == 0 ==> r@.len() == 2,
        r@.subrange(1, r@.len() - 1) == backup_lines(
            c.pos_folder.keys(),
            records@.map_values(|s: String| s@),
            records@.len() as int,
        ),
{
    reveal_strlit("{");
    reveal_strlit("}");
    let lines = backup_lines(
        c.pos_folder.keys(),
        records@.map_values(|s: String| s@),
        records@.len() as int,
    );
    assert(r@.subrange(1, r@.len() - 1) =~= lines);
}

} // verus!
