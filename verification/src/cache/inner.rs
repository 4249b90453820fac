//! The state of a collection's cache and what is read from and written to it.

use crate::audio_meta;
use crate::audio_meta::{AudioFolderInner, FolderView};
use crate::cache::shuffle;
use crate::cache::util;
use crate::error::Error;
use crate::paths;
use crate::position;
use crate::position::{ItemView, Offset, Position, PositionItem, PositionView};
use crate::table::Table;
use crate::text;
use crate::timestamp::TimeStamp;
use dashmap::DashMap;
use vstd::prelude::*;
use vstd::string::*;

verus! {

/// The positions in a folder, by group.
pub type PositionRecord = Table<PositionItem>;

/// The folders of a collection and the positions in them.
pub struct CacheInner {
    /// The directory of the collection.
    pub base_dir: String,
    /// Whether folders of parts of a recording are merged into their parent.
    pub collapse_cd: bool,
    /// How many groups may have a position in one folder.
    pub max_groups: usize,
    /// The folders, by their path below the base directory.
    pub folders: Table<AudioFolderInner>,
    /// The folder of each group's last position.
    pub pos_latest: Table<String>,
    /// The positions, by folder.
    pub pos_folder: Table<PositionRecord>,
    /// The folders in the order in which they were stored.
    pub shuffle_idx_map: DashMap<usize, String>,
    /// How many folders were stored.
    pub file_counter: usize,
}

/// The positions of one folder, by group.
pub type RecordView = Map<Seq<char>, ItemView>;

/// The contents of a cache.
#[verifier::ext_equal]
pub struct CacheModel {
    pub folders: Map<Seq<char>, FolderView>,
    pub positions: Map<Seq<char>, RecordView>,
    pub latest: Map<Seq<char>, Seq<char>>,
}

/// The positions of a record, by group.
pub open spec fn record_view(r: PositionRecord) -> RecordView {
    r@.map_values(|i: PositionItem| i@)
}

/// The folders of a table, by path.
pub open spec fn folders_view(t: Table<AudioFolderInner>) -> Map<Seq<char>, FolderView> {
    t@.map_values(|f: AudioFolderInner| f@)
}

/// The records of a table, by folder.
pub open spec fn positions_view(t: Table<PositionRecord>) -> Map<Seq<char>, RecordView> {
    t@.map_values(|r: PositionRecord| record_view(r))
}

impl View for CacheInner {
    type V = CacheModel;

    open spec fn view(&self) -> CacheModel {
        CacheModel {
            folders: folders_view(self.folders),
            positions: positions_view(self.pos_folder),
            latest: audio_meta::text_table(&self.pos_latest),
        }
    }
}

/// A folder counts as finished when no more than this many seconds are left of its last file.
pub const EOB_LIMIT: u32 = 10;

impl CacheModel {
    /// The positions in a folder; a folder without a record has none.
    pub open spec fn record(self, folder: Seq<char>) -> RecordView {
        if self.positions.contains_key(folder) {
            self.positions[folder]
        } else {
            Map::empty()
        }
    }

    /// The name and the duration of the last file of a folder.
    pub open spec fn last_file(self, folder: Seq<char>) -> Option<(Seq<char>, Option<u32>)> {
        if !self.folders.contains_key(folder) || self.folders[folder].files.len() == 0 {
            None
        } else {
            let f = self.folders[folder].files.last();
            match paths::name_of(f.path) {
                Some(n) => Some(
                    (
                        n,
                        match f.meta {
                            Some(m) => Some(m.duration),
                            None => None,
                        },
                    ),
                ),
                None => None,
            }
        }
    }
}

/// Whether playback of the last file is close to its end.
pub open spec fn near_end(duration: Option<u32>, position: Offset) -> bool {
    match duration {
        Some(d) => d - position.seconds < EOB_LIMIT,
        None => false,
    }
}

/// A position that is to be stored.
pub struct Request {
    pub group: Seq<char>,
    pub path: Seq<char>,
    pub position: Offset,
    pub finished: bool,
    pub ts: Option<TimeStamp>,
    pub use_ts: bool,
}

/// What becomes of a position that is to be stored.
pub enum Insertion {
    /// It is stored.
    Stored(CacheModel),
    /// It is older than the one that is there, or its folder has no playable file.
    Ignored,
    /// Its folder has positions of too many groups.
    TooManyGroups,
}

/// The position that a request stores, for a folder with the given last file.
pub open spec fn item_for(req: Request, last: (Seq<char>, Option<u32>), now: TimeStamp) -> ItemView {
    let file = util::path_and_file(req.path).1;
    ItemView {
        file,
        timestamp: match req.ts {
            Some(t) if req.use_ts => t,
            _ => now,
        },
        position: req.position,
        folder_finished: req.finished || (file == last.0 && near_end(last.1, req.position)),
    }
}

/// What becomes of a request at the time `now`.
pub open spec fn insertion(
    m: CacheModel,
    max_groups: usize,
    req: Request,
    now: TimeStamp,
) -> Insertion {
    let folder = util::path_and_file(req.path).0;
    let rec = m.record(folder);
    match m.last_file(folder) {
        None => Insertion::Ignored,
        Some(last) => if req.ts is Some && rec.contains_key(req.group)
            && rec[req.group].timestamp.millis() > req.ts->0.millis() {
            Insertion::Ignored
        } else if !rec.contains_key(req.group) && rec.dom().len() >= max_groups {
            Insertion::TooManyGroups
        } else {
            Insertion::Stored(
                CacheModel {
                    positions: m.positions.insert(
                        folder,
                        rec.insert(req.group, item_for(req, last, now)),
                    ),
                    latest: m.latest.insert(req.group, folder),
                    ..m
                },
            )
        },
    }
}

/// The position of a group in a folder, or in the folder of its last position.
pub open spec fn position_of(
    m: CacheModel,
    group: Seq<char>,
    folder: Option<Seq<char>>,
) -> Option<PositionView> {
    let fld = match folder {
        Some(f) => Some(f),
        None => if m.latest.contains_key(group) {
            Some(m.latest[group])
        } else {
            None
        },
    };
    match fld {
        Some(f) => if m.record(f).contains_key(group) {
            Some(m.record(f)[group].shown_in(f, 0))
        } else {
            None
        },
        None => None,
    }
}

/// The outcome of an insertion as a result of the operation on a cache.
pub open spec fn outcome(
    i: Insertion,
    before: CacheModel,
    after: CacheModel,
    r: Result<(), Error>,
) -> bool {
    match i {
        Insertion::Stored(m) => r is Ok && after == m,
        Insertion::Ignored => r is Err && r->Err_0 is IgnoredPosition && after == before,
        Insertion::TooManyGroups => r is Err && r->Err_0 is TooManyGroups && after == before,
    }
}

/// A path is that of a file in a folder: both with a separator between them, or the file alone in
/// the root of the collection.
pub open spec fn is_path_of(path: Seq<char>, folder: Seq<char>, file: Seq<char>) -> bool {
    &&& !file.contains('/')
    &&& path == folder + seq!['/'] + file || (folder.len() == 0 && path == file)
}

/// A folder that can have positions: it is in the cache and ends with a file that has a name.
pub open spec fn is_playable(m: CacheModel, folder: Seq<char>) -> bool {
    &&& m.folders.contains_key(folder)
    &&& m.folders[folder].files.len() > 0
    &&& paths::name_of(m.folders[folder].files.last().path) is Some
}

/// The path of a file in a folder is split into just these.
proof fn split_of_path(path: Seq<char>, folder: Seq<char>, file: Seq<char>)
    requires
        is_path_of(path, folder, file),
    ensures
        util::path_and_file(path) == (folder, file),
{
    if path == folder + seq!['/'] + file {
        util::splitting_undoes_joining(folder, file);
    } else {
        util::splitting_loses_nothing(path);
        assert(folder =~= Seq::empty());
    }
}

/// A stored position does not count as finished unless the request says so or its file is the last
/// one of the folder, has a known duration, and less than ten seconds of it are left.
pub proof fn folder_is_finished_near_its_end(
    m: CacheModel,
    max_groups: usize,
    req: Request,
    now: TimeStamp,
    folder: Seq<char>,
    file: Seq<char>,
)
    requires
        is_path_of(req.path, folder, file),
    ensures
        insertion(m, max_groups, req, now) matches Insertion::Stored(after) ==> {
            let last = m.folders[folder].files.last();
            let finished = after.positions[folder][req.group].folder_finished;
            &&& req.finished ==> finished
            &&& !req.finished ==> (finished <==> {
                &&& paths::name_of(last.path) == Some(file)
                &&& last.meta is Some
                &&& last.meta->0.duration < req.position.seconds + 10
            })
        },
{
    split_of_path(req.path, folder, file);
}

/// A stored position holds the file, the offset and the time of the request: its own time where
/// that is to be used, and else the present one. It is the only position that changes, and its
/// folder becomes the one of the group's last position.
pub proof fn stored_position_is_the_requested_one(
    m: CacheModel,
    max_groups: usize,
    req: Request,
    now: TimeStamp,
    folder: Seq<char>,
    file: Seq<char>,
)
    requires
        is_path_of(req.path, folder, file),
    ensures
        insertion(m, max_groups, req, now) matches Insertion::Stored(after) ==> {
            &&& after.positions.contains_key(folder)
            &&& after.positions[folder].contains_key(req.group)
            &&& after.positions[folder][req.group].file == file
            &&& after.positions[folder][req.group].position == req.position
            &&& req.use_ts && req.ts is Some ==> after.positions[folder][req.group].timestamp
                == req.ts->0
            &&& !req.use_ts || req.ts is None ==> after.positions[folder][req.group].timestamp
                == now
            &&& after.latest.contains_key(req.group)
            &&& after.latest[req.group] == folder
            &&& after.folders == m.folders
            &&& forall|g: Seq<char>|
                g != req.group ==> (#[trigger] after.latest.contains_key(g)
                    <==> m.latest.contains_key(g)) && (m.latest.contains_key(g) ==> after.latest[g]
                    == m.latest[g])
            &&& forall|f: Seq<char>, g: Seq<char>|
                f != folder || g != req.group ==> (#[trigger] after.record(f).contains_key(g)
                    <==> m.record(f).contains_key(g)) && (m.record(f).contains_key(g)
                    ==> after.record(f)[g] == m.record(f)[g])
        },
{
    split_of_path(req.path, folder, file);
}

/// A position is stored, ignored or refused for these reasons and no others: it is ignored where
/// its folder cannot have positions or a later one of the group is there, and refused where the
/// folder has as many other groups as it may have.
pub proof fn refusals_have_reasons(
    m: CacheModel,
    max_groups: usize,
    req: Request,
    now: TimeStamp,
    folder: Seq<char>,
    file: Seq<char>,
)
    requires
        is_path_of(req.path, folder, file),
    ensures
        ({
            let there = m.record(folder).contains_key(req.group);
            let outdated = there && req.ts is Some && req.ts->0.millis() < m.record(
                folder,
            )[req.group].timestamp.millis();
            let full = !there && max_groups <= m.record(folder).dom().len();
            let i = insertion(m, max_groups, req, now);
            &&& i is Ignored <==> !is_playable(m, folder) || outdated
            &&& i is TooManyGroups <==> is_playable(m, folder) && full
            &&& i is Stored <==> is_playable(m, folder) && !outdated && !full
        }),
{
    split_of_path(req.path, folder, file);
}

/// A refused or ignored position leaves the cache as it is and is told, and a stored one is told
/// too.
pub proof fn outcome_tells_what_happened(
    m: CacheModel,
    after: CacheModel,
    max_groups: usize,
    req: Request,
    now: TimeStamp,
    r: Result<(), Error>,
)
    requires
        outcome(insertion(m, max_groups, req, now), m, after, r),
    ensures
        r is Err ==> after == m,
        r is Ok ==> after.latest.contains_key(req.group),
        r is Err ==> r->Err_0 is IgnoredPosition || r->Err_0 is TooManyGroups,
        r is Err && r->Err_0 is TooManyGroups ==> max_groups <= m.record(
            util::path_and_file(req.path).0,
        ).dom().len(),
{
}

/// The position of a group in a folder is the one that is stored there, and without a folder the
/// one in the folder of its last position; a group without one has none.
pub proof fn positions_are_read_as_stored(m: CacheModel, group: Seq<char>, folder: Seq<char>)
    ensures
        position_of(m, group, Some(folder)) is Some <==> m.positions.contains_key(folder)
            && m.positions[folder].contains_key(group),
        position_of(m, group, Some(folder)) matches Some(p) ==> {
            let item = m.positions[folder][group];
            &&& p.folder == folder
            &&& p.collection == 0
            &&& p.file == item.file
            &&& p.timestamp == item.timestamp
            &&& p.position == item.position
            &&& p.folder_finished == item.folder_finished
        },
        m.latest.contains_key(group) ==> position_of(m, group, None) == position_of(
            m,
            group,
            Some(m.latest[group]),
        ),
        !m.latest.contains_key(group) ==> position_of(m, group, None) is None,
{
}

/// There are as many numbers below `n` as `n` says.
proof fn count_below(n: usize, s: Set<usize>)
    requires
        forall|i: usize| #[trigger] s.contains(i) <==> i < n,
    ensures
        s.finite(),
        s.len() == n,
    decreases n,
{
    if n == 0 {
        assert(s =~= Set::empty());
    } else {
        let m = (n - 1) as usize;
        count_below(m, s.remove(m));
        assert(s =~= s.remove(m).insert(m));
    }
}

/// Where folders are numbered without gaps, as many were stored as are counted, and every number
/// below the count leads to a folder.
pub proof fn every_number_below_the_count_has_a_folder(c: &CacheInner)
    requires
        c.densely_numbered(),
    ensures
        shuffle::numbered_texts(c.shuffle_idx_map).dom().len() == c.file_counter,
        forall|i: usize|
            i < shuffle::numbered_texts(c.shuffle_idx_map).dom().len()
                ==> #[trigger] shuffle::numbered_texts(c.shuffle_idx_map).contains_key(i),
{
    let numbers = shuffle::numbered_texts(c.shuffle_idx_map);
    assert forall|i: usize| #[trigger] numbers.dom().contains(i) <==> i < c.file_counter by {
        assert(numbers.contains_key(i) <==> i < c.file_counter);
    }
    count_below(c.file_counter, numbers.dom());
}

impl CacheInner {
    /// All tables are in order.
    pub open spec fn wf(&self) -> bool {
        &&& self.folders.wf()
        &&& self.pos_latest.wf()
        &&& self.pos_folder.wf()
        &&& forall|k: Seq<char>| #[trigger]
            self.pos_folder@.contains_key(k) ==> self.pos_folder@[k].wf()
    }

    /// What does not belong to the contents is the same.
    pub open spec fn same_setup(&self, other: &CacheInner) -> bool {
        &&& self.base_dir == other.base_dir
        &&& self.collapse_cd == other.collapse_cd
        &&& self.max_groups == other.max_groups
    }

    /// The numbered folders are the same.
    pub open spec fn same_numbers(&self, other: &CacheInner) -> bool {
        &&& self.shuffle_idx_map == other.shuffle_idx_map
        &&& self.file_counter == other.file_counter
    }

    /// The folders are numbered from zero on without gaps.
    pub open spec fn densely_numbered(&self) -> bool {
        forall|i: usize| #[trigger]
            shuffle::numbered_texts(self.shuffle_idx_map).contains_key(i) <==> i
                < self.file_counter
    }

    /// An empty cache for the collection at `base_dir`.
    pub fn new(
        base_dir: String,
        collapse_cd: bool,
        max_groups: usize,
        shuffle_idx_map: DashMap<usize, String>,
    ) -> (r: Self)
        ensures
            r.wf(),
            r.base_dir == base_dir,
            r.collapse_cd == collapse_cd,
            r.max_groups == max_groups,
            r.shuffle_idx_map == shuffle_idx_map,
            r.file_counter == 0,
            shuffle::numbered_texts(shuffle_idx_map).dom() == Set::<usize>::empty()
                ==> r.densely_numbered(),
            r@.folders == Map::<Seq<char>, FolderView>::empty(),
            r@.positions == Map::<Seq<char>, RecordView>::empty(),
            r@.latest == Map::<Seq<char>, Seq<char>>::empty(),
    {
        assert forall|i: usize|
            shuffle::numbered_texts(shuffle_idx_map).dom() == Set::<usize>::empty()
            implies !(#[trigger] shuffle::numbered_texts(shuffle_idx_map).contains_key(i)) by {
            assert(!Set::<usize>::empty().contains(i));
        }
        let r = CacheInner {
            base_dir,
            collapse_cd,
            max_groups,
            folders: Table::new(),
            pos_latest: Table::new(),
            pos_folder: Table::new(),
            shuffle_idx_map,
            file_counter: 0,
        };
        assert(r@.folders =~= Map::<Seq<char>, FolderView>::empty());
        assert(r@.positions =~= Map::<Seq<char>, RecordView>::empty());
        assert(r@.latest =~= Map::<Seq<char>, Seq<char>>::empty());
        r
    }

    /// The directory of the collection.
    pub fn base_dir(&self) -> (r: &str)
        ensures
            r@ == self.base_dir@,
    {
        self.base_dir.as_str()
    }

    /// How many folders were stored under a number.
    pub fn dir_count(&self) -> (n: usize)
        ensures
            n == shuffle::numbered_texts(self.shuffle_idx_map).dom().len(),
    {
        shuffle::count_numbered(&self.shuffle_idx_map)
    }

    /// The folder that was stored under a number.
    pub fn path_by_index(&self, idx: usize) -> (r: Option<String>)
        ensures
            match r {
                Some(p) => shuffle::numbered_texts(self.shuffle_idx_map).contains_key(idx)
                    && shuffle::numbered_texts(self.shuffle_idx_map)[idx] == p@,
                None => !shuffle::numbered_texts(self.shuffle_idx_map).contains_key(idx),
            },
    {
        shuffle::get_numbered(&self.shuffle_idx_map, idx)
    }

    /// A path of the collection as a full path.
    pub fn full_path(&self, rel_path: &str) -> (r: String)
        ensures
            r@ == paths::joined(self.base_dir@, rel_path@),
    {
        paths::join(self.base_dir.as_str(), rel_path)
    }

    /// A full path of the collection relative to its base directory.
    pub fn strip_base<'a>(&self, full_path: &'a str) -> (r: &'a str)
        requires
            paths::is_under(full_path@, self.base_dir@),
        ensures
            r@ == paths::rest_after(full_path@, self.base_dir@),
    {
        match paths::strip_prefix(full_path, self.base_dir.as_str()) {
            Some(r) => r,
            None => full_path,
        }
    }

    /// The folder at a path.
    pub fn get(&self, dir: &str) -> (r: Option<&AudioFolderInner>)
        requires
            self.wf(),
        ensures
            match r {
                Some(f) => self@.folders.contains_key(dir@) && f@ == self@.folders[dir@],
                None => !self@.folders.contains_key(dir@),
            },
    {
        self.folders.get(dir)
    }

    /// Whether there is a folder at a path.
    pub fn has_key(&self, dir: &str) -> (r: bool)
        requires
            self.wf(),
        ensures
            r == self@.folders.contains_key(dir@),
    {
        self.folders.contains(dir)
    }

    /// The folder at a path, unless the directory was modified after it was stored or either
    /// time is not known.
    pub fn get_if_actual(&self, dir: &str, ts: Option<TimeStamp>) -> (r: Option<&AudioFolderInner>)
        requires
            self.wf(),
        ensures
            match r {
                Some(f) => self@.folders.contains_key(dir@) && f@ == self@.folders[dir@]
                    && f.modified is Some && ts is Some && f.modified->0.millis()
                    >= ts->0.millis(),
                None => !self@.folders.contains_key(dir@) || self@.folders[dir@].modified is None
                    || ts is None || self@.folders[dir@].modified->0.millis() < ts->0.millis(),
            },
    {
        match self.folders.get(dir) {
            Some(f) => match (f.modified, ts) {
                (Some(cached), Some(actual)) => if cached.as_millis() >= actual.as_millis() {
                    Some(f)
                } else {
                    None
                },
                _ => None,
            },
            None => None,
        }
    }

    /// The name and the duration of the last file of a folder.
    pub fn get_last_file(&self, dir: &str) -> (r: Option<(String, Option<u32>)>)
        requires
            self.wf(),
        ensures
            match r {
                Some((n, d)) => self@.last_file(dir@) == Some((n@, d)),
                None => self@.last_file(dir@) is None,
            },
    {
        match self.folders.get(dir) {
            Some(f) => {
                assert(self@.folders[dir@] == f@);
                let n = f.files.len();
                if n == 0 {
                    return None;
                }
                let last = &f.files[n - 1];
                assert(f@.files.last() == last@);
                match paths::file_name(last.path.as_str()) {
                    Some(name) => Some(
                        (
                            name.to_owned(),
                            match &last.meta {
                                Some(m) => Some(m.duration),
                                None => None,
                            },
                        ),
                    ),
                    None => None,
                }
            },
            None => None,
        }
    }

    /// Stores a folder, and keeps its path under the next number.
    pub fn update(&mut self, dir: &str, af: AudioFolderInner)
        requires
            old(self).wf(),
            old(self).file_counter < usize::MAX,
        ensures
            final(self).wf(),
            final(self).same_setup(old(self)),
            final(self)@ == (CacheModel {
                folders: old(self)@.folders.insert(dir@, af@),
                ..old(self)@
            }),
            final(self)@.folders.contains_key(dir@),
            final(self)@.folders[dir@] == af@,
            forall|k: Seq<char>|
                k != dir@ ==> (#[trigger] final(self)@.folders.contains_key(k)
                    <==> old(self)@.folders.contains_key(k)) && final(self)@.folders[k]
                    == old(self)@.folders[k],
            final(self)@.positions == old(self)@.positions,
            final(self)@.latest == old(self)@.latest,
            final(self).file_counter == old(self).file_counter + 1,
            shuffle::numbered_texts(final(self).shuffle_idx_map) == shuffle::numbered_texts(
                old(self).shuffle_idx_map,
            ).insert(old(self).file_counter, dir@),
            old(self).densely_numbered() ==> final(self).densely_numbered(),
    {
        let n = self.file_counter;
        self.file_counter = n + 1;
        shuffle::insert_numbered(&mut self.shuffle_idx_map, n, dir.to_owned());
        self.folders.insert(dir.to_owned(), af);
        assert(self@.folders =~= old(self)@.folders.insert(dir@, af@));
    }

    /// Takes out the folder at a path.
    pub fn remove(&mut self, dir_path: &str) -> (r: Option<AudioFolderInner>)
        requires
            old(self).wf(),
        ensures
            final(self).wf(),
            final(self).same_setup(old(self)),
            final(self).same_numbers(old(self)),
            final(self)@ == (CacheModel {
                folders: old(self)@.folders.remove(dir_path@),
                ..old(self)@
            }),
            !final(self)@.folders.contains_key(dir_path@),
            forall|k: Seq<char>|
                k != dir_path@ ==> (#[trigger] final(self)@.folders.contains_key(k)
                    <==> old(self)@.folders.contains_key(k)) && (old(self)@.folders.contains_key(k)
                    ==> final(self)@.folders[k] == old(self)@.folders[k]),
            final(self)@.positions == old(self)@.positions,
            final(self)@.latest == old(self)@.latest,
            match r {
                Some(f) => old(self)@.folders.contains_key(dir_path@) && f@
                    == old(self)@.folders[dir_path@],
                None => !old(self)@.folders.contains_key(dir_path@),
            },
    {
        let r = self.folders.remove(dir_path);
        assert(self@.folders =~= old(self)@.folders.remove(dir_path@));
        r
    }

    /// Whether a stored position is newer than the time `ts`.
    fn is_outdated(&self, folder: &str, group: &str, ts: Option<TimeStamp>) -> (r: bool)
        requires
            self.wf(),
        ensures
            r == (ts is Some && self@.record(folder@).contains_key(group@) && self@.record(
                folder@,
            )[group@].timestamp.millis() > ts->0.millis()),
    {
        match (ts, self.pos_folder.get(folder)) {
            (Some(t), Some(rec)) => {
                assert(self@.record(folder@) == record_view(*rec));
                match rec.get(group) {
                    Some(item) => item.timestamp.as_millis() > t.as_millis(),
                    None => false,
                }
            },
            _ => false,
        }
    }

    /// Whether a group has no position in a folder and the folder is full.
    fn is_full_for(&self, folder: &str, group: &str) -> (r: bool)
        requires
            self.wf(),
        ensures
            r == (!self@.record(folder@).contains_key(group@) && self@.record(folder@).dom().len()
                >= self.max_groups),
    {
        match self.pos_folder.get(folder) {
            Some(rec) => {
                proof {
                    rec.reads_off();
                    assert(self@.record(folder@) == record_view(*rec));
                    assert(record_view(*rec).dom() =~= rec@.dom());
                }
                !rec.contains(group) && rec.len() >= self.max_groups
            },
            None => {
                assert(self@.record(folder@) =~= Map::empty());
                self.max_groups == 0
            },
        }
    }

    /// Puts a position into a folder's record and makes the folder the group's last one.
    fn store_item(&mut self, folder: &str, group: &str, item: PositionItem)
        requires
            old(self).wf(),
        ensures
            final(self).wf(),
            final(self).same_setup(old(self)),
            final(self).same_numbers(old(self)),
            final(self)@ == (CacheModel {
                positions: old(self)@.positions.insert(
                    folder@,
                    old(self)@.record(folder@).insert(group@, item@),
                ),
                latest: old(self)@.latest.insert(group@, folder@),
                ..old(self)@
            }),
    {
        let ghost before = self@;
        let mut rec = match self.pos_folder.remove(folder) {
            Some(r) => r,
            None => Table::new(),
        };
        assert(record_view(rec) =~= before.record(folder@));
        let ghost had = record_view(rec);
        rec.insert(group.to_owned(), item);
        assert(record_view(rec) =~= had.insert(group@, item@));
        self.pos_folder.insert(folder.to_owned(), rec);
        self.pos_latest.insert(group.to_owned(), folder.to_owned());
        assert(self@.positions =~= before.positions.insert(
            folder@,
            before.record(folder@).insert(group@, item@),
        ));
        assert(self@.latest =~= before.latest.insert(group@, folder@));
        assert(self@.folders =~= before.folders);
    }

    /// Stores the position of a group at the time `now`.
    ///
    /// It is ignored where its folder has no playable file or a newer position is there, and
    /// refused where too many groups have a position in the folder.
    pub fn insert_position_at(
        &mut self,
        group: &str,
        path: &str,
        position: Offset,
        finished: bool,
        ts: Option<TimeStamp>,
        use_ts: bool,
        now: TimeStamp,
    ) -> (r: Result<(), Error>)
        requires
            old(self).wf(),
        ensures
            final(self).wf(),
            final(self).same_setup(old(self)),
            final(self).same_numbers(old(self)),
            outcome(
                insertion(
                    old(self)@,
                    old(self).max_groups,
                    (Request { group: group@, path: path@, position, finished, ts, use_ts }),
                    now,
                ),
                old(self)@,
                final(self)@,
                r,
            ),
    {
        let (folder, file) = util::split_path(path);
        match self.get_last_file(folder) {
            Some((last_file, last_duration)) => {
                if self.is_outdated(folder, group, ts) {
                    return Err(Error::IgnoredPosition);
                }
                if self.is_full_for(folder, group) {
                    return Err(Error::TooManyGroups);
                }
                let at_end = match last_duration {
                    Some(d) => {
                        let left = if d >= position.seconds {
                            d - position.seconds
                        } else {
                            0
                        };
                        left < EOB_LIMIT
                    },
                    None => false,
                };
                let timestamp = match ts {
                    Some(t) => if use_ts {
                        t
                    } else {
                        now
                    },
                    None => now,
                };
                let item = PositionItem {
                    folder_finished: finished || (text::same_text(file, last_file.as_str())
                        && at_end),
                    file: file.to_owned(),
                    timestamp,
                    position,
                };
                let ghost req = Request {
                    group: group@,
                    path: path@,
                    position,
                    finished,
                    ts,
                    use_ts,
                };
                assert(item@ =~= item_for(req, (last_file@, last_duration), now));
                self.store_item(folder, group, item);
                Ok(())
            },
            None => Err(Error::IgnoredPosition),
        }
    }

    /// Stores the position of a group at the present time.
    pub fn insert_position(
        &mut self,
        group: &str,
        path: &str,
        position: Offset,
        finished: bool,
        ts: Option<TimeStamp>,
        use_ts: bool,
    ) -> (r: Result<(), Error>)
        requires
            old(self).wf(),
        ensures
            final(self).wf(),
            final(self).same_setup(old(self)),
            final(self).same_numbers(old(self)),
            exists|now: TimeStamp|
                {
                    &&& #[trigger] call_ensures(TimeStamp::now, (), now)
                    &&& outcome(
                        insertion(
                            old(self)@,
                            old(self).max_groups,
                            (Request { group: group@, path: path@, position, finished, ts, use_ts }),
                            now,
                        ),
                        old(self)@,
                        final(self)@,
                        r,
                    )
                },
    {
        let now = TimeStamp::now();
        self.insert_position_at(group, path, position, finished, ts, use_ts, now)
    }

    /// The position of a group in a folder, or in the folder of its last position.
    pub fn get_position(&self, group: &str, folder: Option<&str>) -> (r: Option<Position>)
        requires
            self.wf(),
        ensures
            match r {
                Some(p) => position_of(
                    self@,
                    group@,
                    match folder {
                        Some(f) => Some(f@),
                        None => None,
                    },
                ) == Some(p@),
                None => position_of(
                    self@,
                    group@,
                    match folder {
                        Some(f) => Some(f@),
                        None => None,
                    },
                ) is None,
            },
    {
        let fld: &str = match folder {
            Some(f) => f,
            None => match self.pos_latest.get(group) {
                Some(f) => f.as_str(),
                None => return None,
            },
        };
        match self.pos_folder.get(fld) {
            Some(rec) => {
                assert(self@.record(fld@) == record_view(*rec));
                match rec.get(group) {
                    Some(item) => Some(item.to_position(fld, 0)),
                    None => None,
                }
            },
            None => None,
        }
    }

    /// Whether a group has finished a folder.
    pub fn is_finished(&self, group: &str, dir: &str) -> (r: bool)
        requires
            self.wf(),
        ensures
            r == (self@.record(dir@).contains_key(group@) && self@.record(
                dir@,
            )[group@].folder_finished),
    {
        match self.pos_folder.get(dir) {
            Some(rec) => {
                assert(self@.record(dir@) == record_view(*rec));
                match rec.get(group) {
                    Some(item) => item.folder_finished,
                    None => false,
                }
            },
            None => false,
        }
    }
}

/// A folder is taken from the cache only if it was stored when the directory was as it is now: both
/// times are known, and the directory was not modified later.
pub proof fn only_actual_folders_are_taken(
    c: &CacheInner,
    dir: &str,
    ts: Option<TimeStamp>,
    r: Option<&AudioFolderInner>,
)
    requires
        c.wf(),
        call_ensures(CacheInner::get_if_actual, (c, dir, ts), r),
    ensures
        r is Some ==> c@.folders.contains_key(dir@) && r->0@ == c@.folders[dir@],
        r is Some <==> c@.folders.contains_key(dir@) && ts is Some && c@.folders[dir@].modified
            is Some && ts->0.millis() <= c@.folders[dir@].modified->0.millis(),
{
}

/// A group has finished a folder if its position there says so; without a position it has not.
pub proof fn folders_are_finished_by_group(c: &CacheInner, group: &str, dir: &str, r: bool)
    requires
        c.wf(),
        call_ensures(CacheInner::is_finished, (c, group, dir), r),
    ensures
        r <==> c@.positions.contains_key(dir@) && c@.positions[dir@].contains_key(group@)
            && c@.positions[dir@][group@].folder_finished,
{
}

/// The name and the duration of the last file of a folder are those of the file that is listed
/// last.
pub proof fn last_file_is_listed_last(m: CacheModel, folder: Seq<char>)
    ensures
        m.last_file(folder) is Some <==> is_playable(m, folder),
        is_playable(m, folder) ==> {
            let f = m.folders[folder].files[m.folders[folder].files.len() - 1];
            &&& paths::name_of(f.path) == Some((m.last_file(folder)->0).0)
            &&& f.meta is Some ==> (m.last_file(folder)->0).1 == Some(f.meta->0.duration)
            &&& f.meta is None ==> (m.last_file(folder)->0).1 is None
        },
{
}

} // verus!
