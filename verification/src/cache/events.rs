//! What changes of the file system mean for the cache.

use crate::audio_meta;
use crate::audio_meta::AudioFolderShort;
use crate::cache::inner::{CacheInner, CacheModel};
use crate::cache::moves;
use crate::cache::update;
use crate::cache::update::{ActionView, FsEvent, UpdateAction};
use crate::cache::util;
use crate::paths;
use crate::table;
use crate::timestamp::TimeStamp;
use vstd::prelude::*;

verus! {

/// What is found at a path.
#[derive(Debug, Clone, Copy, PartialEq, Eq, Structural)]
pub enum DirKind {
    /// A directory.
    Dir,
    /// A file that counts as a folder, since it has chapters.
    File,
    /// Any other file.
    Other,
    /// Nothing.
    NotFound,
    /// It cannot be told.
    Failed,
}

/// What is known of a path.
#[derive(Debug, Clone, Copy)]
pub struct PathFacts {
    /// What is found there.
    pub kind: DirKind,
    /// Whether the full path is that of a part of a recording.
    pub is_collapsable: bool,
    /// Whether the path below the base directory is that of a part of a recording.
    pub is_collapsable_below: bool,
}

/// What is known of the paths of an event and of their parents.
#[derive(Debug, Clone, Copy)]
pub struct EventFacts {
    pub path: PathFacts,
    pub parent: PathFacts,
    /// Of the second path of a renaming.
    pub dest: PathFacts,
    /// Of the parent of the second path of a renaming.
    pub dest_parent: PathFacts,
}

/// How a path relates to the cache.
#[derive(Debug, Clone, Copy, PartialEq, Eq, Structural)]
pub enum FolderType {
    RegularDir,
    DeletedDir,
    FileDir,
    RegularFile,
    CollapsedDir,
    NewDir,
    NewFileDir,
    Unknown,
}

/// Whether a path of the given type is, or was, a folder of the cache.
pub open spec fn counts_as_dir(t: FolderType) -> bool {
    !(t is RegularFile || t is Unknown || t is CollapsedDir)
}

impl FolderType {
    /// Whether a path of this type is, or was, a folder of the cache.
    pub fn is_dir(&self) -> (r: bool)
        ensures
            r == counts_as_dir(*self),
    {
        match self {
            FolderType::RegularFile | FolderType::Unknown | FolderType::CollapsedDir => false,
            _ => true,
        }
    }

    /// Whether a path of this type is merged into its parent.
    pub fn is_collapsed(&self) -> (r: bool)
        ensures
            r == (*self is CollapsedDir),
    {
        match self {
            FolderType::CollapsedDir => true,
            _ => false,
        }
    }
}

/// The type of a path: what is found there decides, and whether the cache has it.
pub open spec fn folder_type(known: bool, facts: PathFacts) -> FolderType {
    match facts.kind {
        DirKind::Dir => if known {
            FolderType::RegularDir
        } else if facts.is_collapsable_below {
            FolderType::CollapsedDir
        } else {
            FolderType::NewDir
        },
        DirKind::File => if known {
            FolderType::FileDir
        } else {
            FolderType::NewFileDir
        },
        DirKind::Other => FolderType::RegularFile,
        DirKind::NotFound => if known {
            FolderType::DeletedDir
        } else {
            FolderType::Unknown
        },
        DirKind::Failed => FolderType::Unknown,
    }
}

/// What is needed to know what an event means: the base directory, whether parts of recordings
/// are merged, and which folders the cache has.
pub struct Scene {
    pub base: Seq<char>,
    pub collapse: bool,
    pub known: Set<Seq<char>>,
}

impl Scene {
    /// A full path relative to the base directory.
    pub open spec fn rel(self, full: Seq<char>) -> Seq<char> {
        paths::rest_after(full, self.base)
    }

    /// The type of a full path.
    pub open spec fn type_of(self, full: Seq<char>, facts: PathFacts) -> FolderType {
        folder_type(self.known.contains(self.rel(full)), facts)
    }

    /// Whether a full path is, or was, a folder of the cache.
    pub open spec fn is_dir(self, full: Seq<char>, facts: PathFacts) -> bool {
        counts_as_dir(self.type_of(full, facts))
    }

    /// The parent of a full path within the collection.
    pub open spec fn parent(self, full: Seq<char>) -> Seq<char> {
        util::parent_or_empty(self.rel(full))
    }

    /// The folder that holds a full path: its parent, or the parent of that if it is merged.
    pub open spec fn true_parent(self, full: Seq<char>, parent: PathFacts) -> Seq<char> {
        if self.collapse && paths::parent_of(full) is Some && self.type_of(
            paths::parent_of(full)->0,
            parent,
        ) is CollapsedDir {
            util::parent_or_empty(self.parent(full))
        } else {
            self.parent(full)
        }
    }

    /// A full path within the collection.
    pub open spec fn holds(self, full: Seq<char>) -> bool {
        paths::is_rooted(full) && paths::is_under(full, self.base)
    }

    /// A full path whose parent is within the collection, too, if it has to be looked at.
    pub open spec fn parent_held(self, full: Seq<char>) -> bool {
        self.collapse && paths::parent_of(full) is Some ==> self.holds(paths::parent_of(full)->0)
    }

    /// The paths that have to be looked at for an event lie within the collection.
    pub open spec fn can_handle(self, evt: FsEvent, facts: EventFacts) -> bool {
        match evt {
            FsEvent::Create(p) => self.holds(p@) && self.parent_held(p@),
            FsEvent::Write(p) | FsEvent::Remove(p) => {
                &&& self.holds(p@)
                &&& !self.is_dir(p@, facts.path) ==> self.parent_held(p@)
            },
            FsEvent::Rename(p, q) => {
                &&& self.holds(p@)
                &&& !self.is_dir(p@, facts.path) ==> self.parent_held(p@)
                &&& paths::is_under(q@, self.base) && !self.is_dir(p@, facts.path)
                    ==> paths::is_rooted(q@) && (!self.is_dir(q@, facts.dest)
                    ==> self.parent_held(q@))
            },
            _ => true,
        }
    }

    /// The updates that an event asks for.
    pub open spec fn updates(self, evt: FsEvent, facts: EventFacts) -> Seq<ActionView> {
        match evt {
            FsEvent::Create(p) => {
                let around = ActionView::RefreshFolder(self.true_parent(p@, facts.parent));
                if self.is_dir(p@, facts.path) {
                    seq![ActionView::RefreshFolderRecursive(self.rel(p@)), around]
                } else {
                    seq![around]
                }
            },
            FsEvent::Write(p) => if self.is_dir(p@, facts.path) {
                seq![ActionView::RefreshFolder(self.rel(p@))]
            } else {
                seq![ActionView::RefreshFolder(self.true_parent(p@, facts.parent))]
            },
            FsEvent::Remove(p) => self.removal(p@, facts),
            FsEvent::Rename(p, q) => if !paths::is_under(q@, self.base) {
                self.removal(p@, facts)
            } else if self.is_dir(p@, facts.path) {
                let first = if facts.dest.is_collapsable {
                    ActionView::RemoveFolder(self.rel(p@))
                } else {
                    ActionView::RenameFolder { from: self.rel(p@), to: self.rel(q@) }
                };
                let old_parent = self.parent(p@);
                let new_parent = self.parent(q@);
                if update::same(new_parent, old_parent) {
                    seq![first, ActionView::RefreshFolder(old_parent)]
                } else {
                    seq![
                        first,
                        ActionView::RefreshFolder(old_parent),
                        ActionView::RefreshFolder(new_parent),
                    ]
                }
            } else {
                let first = ActionView::RefreshFolder(self.true_parent(p@, facts.parent));
                if self.is_dir(q@, facts.dest) {
                    seq![
                        first,
                        ActionView::RefreshFolder(self.parent(q@)),
                        ActionView::RefreshFolderRecursive(self.rel(q@)),
                    ]
                } else {
                    seq![
                        first,
                        ActionView::RefreshFolder(self.true_parent(q@, facts.dest_parent)),
                    ]
                }
            },
            _ => Seq::empty(),
        }
    }

    /// The updates that the removal of a path asks for.
    pub open spec fn removal(self, p: Seq<char>, facts: EventFacts) -> Seq<ActionView> {
        if self.is_dir(p, facts.path) {
            seq![
                ActionView::RemoveFolder(self.rel(p)),
                ActionView::RefreshFolder(self.parent(p)),
            ]
        } else {
            seq![ActionView::RefreshFolder(self.true_parent(p, facts.parent))]
        }
    }
}

/// A change that passes asks for at least one update, and one that is ignored for none.
pub proof fn every_passing_event_asks_for_updates(
    scene: Scene,
    evt: FsEvent,
    facts: EventFacts,
)
    ensures
        scene.updates(evt, facts).len() > 0 <==> (evt is Create || evt is Write || evt is Remove
            || evt is Rename),
        scene.updates(evt, facts).len() <= 3,
{
}

/// What counts as a folder of the cache: a file with chapters, a directory that the cache has or
/// that is not merged into its parent, and something that is gone if the cache has it.
pub proof fn folders_are_told_from_files(scene: Scene, full: Seq<char>, facts: PathFacts)
    ensures
        ({
            let known = scene.known.contains(scene.rel(full));
            &&& scene.is_dir(full, facts) <==> {
                ||| facts.kind is File
                ||| facts.kind is Dir && (known || !facts.is_collapsable_below)
                ||| facts.kind is NotFound && known
            }
            &&& scene.type_of(full, facts) is CollapsedDir <==> facts.kind is Dir && !known
                && facts.is_collapsable_below
        }),
{
}

/// A path relative to the collection, put below the base directory, is the full path; and its
/// parent there is that of the full path.
pub proof fn paths_are_told_from_the_base(scene: Scene, full: Seq<char>)
    requires
        scene.holds(full),
        scene.base.len() > 0,
    ensures
        paths::components(scene.base) + paths::components(scene.rel(full)) == paths::components(
            full,
        ),
        paths::components(full).len() > paths::components(scene.base).len() ==> paths::components(
            scene.base,
        ) + paths::components(scene.parent(full)) == paths::components(full).drop_last(),
{
    let rel = scene.rel(full);
    let n = paths::components(scene.base).len() as int;
    let all = paths::components(full);
    paths::spans_are_ordered(scene.base);
    paths::rest_has_remaining_components(full, scene.base);
    assert(all.subrange(0, n) =~= paths::components(scene.base));
    assert(paths::components(scene.base) + all.skip(n) =~= all);
    if all.len() > n {
        paths::spans_are_ordered(rel);
        assert(paths::spans(rel).len() == paths::components(rel).len());
        assert(paths::parent_of(rel) is Some);
        paths::parent_drops_last(rel);
        assert(paths::components(scene.base) + all.skip(n).drop_last() =~= all.drop_last());
    }
}

/// The folder that holds a path is its parent; only where parts of recordings are merged, and the
/// parent is one that the cache does not have, it is the parent of that.
pub proof fn holder_is_the_parent_unless_merged(
    scene: Scene,
    full: Seq<char>,
    parent: PathFacts,
)
    ensures
        !scene.collapse || !(parent.kind is Dir) || !parent.is_collapsable_below
            ==> scene.true_parent(full, parent) == scene.parent(full),
        paths::parent_of(full) is Some && scene.known.contains(
            scene.rel(paths::parent_of(full)->0),
        ) ==> scene.true_parent(full, parent) == scene.parent(full),
        scene.collapse && parent.kind is Dir && parent.is_collapsable_below && paths::parent_of(
            full,
        ) is Some && !scene.known.contains(scene.rel(paths::parent_of(full)->0))
            ==> scene.true_parent(full, parent) == util::parent_or_empty(scene.parent(full)),
{
}

/// Something new makes the folder around it be listed anew, and if it is a folder, that one with
/// all below it, before; nothing is taken out.
pub proof fn new_things_are_listed(scene: Scene, p: String, facts: EventFacts, a: ActionView)
    ensures
        scene.updates(FsEvent::Create(p), facts).contains(a) <==> match a {
            ActionView::RefreshFolder(f) => f == scene.true_parent(p@, facts.parent),
            ActionView::RefreshFolderRecursive(f) => scene.is_dir(p@, facts.path) && f
                == scene.rel(p@),
            _ => false,
        },
        scene.is_dir(p@, facts.path) ==> scene.updates(
            FsEvent::Create(p),
            facts,
        )[0] is RefreshFolderRecursive,
{
    let u = scene.updates(FsEvent::Create(p), facts);
    if scene.is_dir(p@, facts.path) {
        assert(u[0] == ActionView::RefreshFolderRecursive(scene.rel(p@)));
        assert(u[1] == ActionView::RefreshFolder(scene.true_parent(p@, facts.parent)));
    } else {
        assert(u[0] == ActionView::RefreshFolder(scene.true_parent(p@, facts.parent)));
    }
}

/// A change of contents makes just the folder be listed anew in which it happened.
pub proof fn changed_things_are_listed(scene: Scene, p: String, facts: EventFacts, a: ActionView)
    ensures
        scene.updates(FsEvent::Write(p), facts).contains(a) <==> match a {
            ActionView::RefreshFolder(f) => f == if scene.is_dir(p@, facts.path) {
                scene.rel(p@)
            } else {
                scene.true_parent(p@, facts.parent)
            },
            _ => false,
        },
{
    let u = scene.updates(FsEvent::Write(p), facts);
    assert(u.len() == 1);
    assert(u.contains(u[0]));
}

/// A folder that is gone is taken out, and then its parent is listed anew; another thing that is
/// gone makes the folder around it be listed anew.
pub proof fn removed_things_are_taken_out(scene: Scene, p: String, facts: EventFacts, a: ActionView)
    ensures
        scene.updates(FsEvent::Remove(p), facts).contains(a) <==> match a {
            ActionView::RemoveFolder(f) => scene.is_dir(p@, facts.path) && f == scene.rel(p@),
            ActionView::RefreshFolder(f) => f == if scene.is_dir(p@, facts.path) {
                scene.parent(p@)
            } else {
                scene.true_parent(p@, facts.parent)
            },
            _ => false,
        },
        scene.is_dir(p@, facts.path) ==> scene.updates(FsEvent::Remove(p), facts)[0] is RemoveFolder,
{
    let u = scene.updates(FsEvent::Remove(p), facts);
    if scene.is_dir(p@, facts.path) {
        assert(u[0] == ActionView::RemoveFolder(scene.rel(p@)));
        assert(u[1] == ActionView::RefreshFolder(scene.parent(p@)));
    } else {
        assert(u[0] == ActionView::RefreshFolder(scene.true_parent(p@, facts.parent)));
    }
}

/// What leaves the collection counts as removed.
pub proof fn moving_out_is_removal(scene: Scene, p: String, q: String, facts: EventFacts)
    requires
        !paths::is_under(q@, scene.base),
    ensures
        scene.updates(FsEvent::Rename(p, q), facts) == scene.updates(FsEvent::Remove(p), facts),
{
}

/// A folder that is renamed within the collection is moved from its old to its new place, or taken
/// out where it becomes a part of a recording; and then both parents are listed anew.
pub proof fn renamed_folders_are_moved(
    scene: Scene,
    p: String,
    q: String,
    facts: EventFacts,
    a: ActionView,
)
    requires
        paths::is_under(q@, scene.base),
        scene.is_dir(p@, facts.path),
    ensures
        ({
            let u = scene.updates(FsEvent::Rename(p, q), facts);
            &&& u.contains(a) ==> match a {
                ActionView::RenameFolder { from, to } => !facts.dest.is_collapsable && from
                    == scene.rel(p@) && to == scene.rel(q@),
                ActionView::RemoveFolder(f) => facts.dest.is_collapsable && f == scene.rel(p@),
                ActionView::RefreshFolder(f) => f == scene.parent(p@) || f == scene.parent(q@),
                ActionView::RefreshFolderRecursive(_) => false,
            }
            &&& u[0] is RenameFolder <==> !facts.dest.is_collapsable
            &&& u[0] is RemoveFolder <==> facts.dest.is_collapsable
            &&& u.contains(ActionView::RefreshFolder(scene.parent(p@)))
            &&& exists|i: int|
                0 <= i < u.len() && (#[trigger] u[i] matches ActionView::RefreshFolder(f)
                    && update::same(f, scene.parent(q@)))
        }),
{
    let u = scene.updates(FsEvent::Rename(p, q), facts);
    assert(u[1] == ActionView::RefreshFolder(scene.parent(p@)));
    if !update::same(scene.parent(q@), scene.parent(p@)) {
        assert(u[2] == ActionView::RefreshFolder(scene.parent(q@)));
    } else {
        assert(u.len() == 2);
    }
}

/// A file that is renamed within the collection makes both folders around it be listed anew; where
/// it becomes a folder, that one too with all below it, and nothing is taken out or moved.
pub proof fn renamed_files_are_listed(
    scene: Scene,
    p: String,
    q: String,
    facts: EventFacts,
    a: ActionView,
)
    requires
        paths::is_under(q@, scene.base),
        !scene.is_dir(p@, facts.path),
    ensures
        ({
            let u = scene.updates(FsEvent::Rename(p, q), facts);
            u.contains(a) <==> match a {
                ActionView::RefreshFolder(f) => f == scene.true_parent(p@, facts.parent) || f
                    == if scene.is_dir(q@, facts.dest) {
                    scene.parent(q@)
                } else {
                    scene.true_parent(q@, facts.dest_parent)
                },
                ActionView::RefreshFolderRecursive(f) => scene.is_dir(q@, facts.dest) && f
                    == scene.rel(q@),
                _ => false,
            }
        }),
{
    let u = scene.updates(FsEvent::Rename(p, q), facts);
    assert(u[0] == ActionView::RefreshFolder(scene.true_parent(p@, facts.parent)));
    if scene.is_dir(q@, facts.dest) {
        assert(u[1] == ActionView::RefreshFolder(scene.parent(q@)));
        assert(u[2] == ActionView::RefreshFolderRecursive(scene.rel(q@)));
    } else {
        assert(u[1] == ActionView::RefreshFolder(scene.true_parent(q@, facts.dest_parent)));
    }
}

/// What is left to be done after an update of the cache.
#[derive(Debug)]
pub enum FollowUp {
    /// Nothing.
    Nothing,
    /// The folder has to be listed and stored.
    List(String),
    /// The folder and all below it have to be listed and stored.
    ListRecursive(String),
}

/// What is left to be done, with texts for paths.
pub enum FollowUpView {
    Nothing,
    List(Seq<char>),
    ListRecursive(Seq<char>),
}

impl View for FollowUp {
    type V = FollowUpView;

    open spec fn view(&self) -> FollowUpView {
        match self {
            FollowUp::Nothing => FollowUpView::Nothing,
            FollowUp::List(p) => FollowUpView::List(p@),
            FollowUp::ListRecursive(p) => FollowUpView::ListRecursive(p@),
        }
    }
}

/// A cache without the folders and positions whose path starts with `p`.
pub open spec fn tree_removed(m: CacheModel, p: Seq<char>) -> CacheModel {
    CacheModel {
        folders: table::without_prefix(m.folders, p),
        positions: table::without_prefix(m.positions, p),
        ..m
    }
}

/// The cache after a folder was renamed: its folders are moved, or taken out if they cannot be;
/// then so are its positions.
pub open spec fn renamed(
    m: CacheModel,
    folder_keys: Seq<Seq<char>>,
    position_keys: Seq<Seq<char>>,
    from: Seq<char>,
    to: Seq<char>,
    updated: Option<TimeStamp>,
) -> CacheModel {
    if moves::can_move_folders(m.folders, folder_keys, from) {
        let folders = moves::folders_renamed(m.folders, folder_keys, from, to, updated);
        if moves::all_under(position_keys, from) {
            CacheModel {
                folders,
                positions: moves::positions_renamed(m.positions, position_keys, from, to),
                latest: moves::latest_renamed(m.latest, from, to),
            }
        } else {
            CacheModel {
                folders,
                positions: table::without_prefix(m.positions, from),
                latest: m.latest,
            }
        }
    } else {
        // no positions whose folder starts with `from` are left to be moved
        CacheModel { latest: moves::latest_renamed(m.latest, from, to), ..tree_removed(m, from) }
    }
}

/// Taking out a folder takes out all folders and positions whose path starts with its own, and
/// leaves all others as they are.
pub proof fn removal_takes_out_what_starts_with_the_path(m: CacheModel, p: Seq<char>, k: Seq<char>)
    ensures
        ({
            let after = tree_removed(m, p);
            &&& p.is_prefix_of(k) ==> !after.folders.contains_key(k)
                && !after.positions.contains_key(k)
            &&& !p.is_prefix_of(k) ==> {
                &&& after.folders.contains_key(k) <==> m.folders.contains_key(k)
                &&& m.folders.contains_key(k) ==> after.folders[k] == m.folders[k]
                &&& after.positions.contains_key(k) <==> m.positions.contains_key(k)
                &&& m.positions.contains_key(k) ==> after.positions[k] == m.positions[k]
            }
            &&& after.latest == m.latest
        }),
{
}

/// Nothing whose path starts with that of a renamed folder is left behind, and nothing else is
/// touched, except where something moved comes.
pub proof fn renaming_leaves_nothing_behind(
    m: CacheModel,
    folder_keys: Seq<Seq<char>>,
    position_keys: Seq<Seq<char>>,
    from: Seq<char>,
    to: Seq<char>,
    updated: Option<TimeStamp>,
    k: Seq<char>,
)
    requires
        forall|j: int|
            0 <= j < folder_keys.len() ==> util::moved(from, to, #[trigger] folder_keys[j]) != k,
        forall|j: int|
            0 <= j < position_keys.len() ==> util::moved(from, to, #[trigger] position_keys[j])
                != k,
    ensures
        ({
            let after = renamed(m, folder_keys, position_keys, from, to, updated);
            &&& from.is_prefix_of(k) ==> !after.folders.contains_key(k)
                && !after.positions.contains_key(k)
            &&& !from.is_prefix_of(k) ==> {
                &&& after.folders.contains_key(k) <==> m.folders.contains_key(k)
                &&& m.folders.contains_key(k) ==> after.folders[k] == m.folders[k]
                &&& after.positions.contains_key(k) <==> m.positions.contains_key(k)
                &&& m.positions.contains_key(k) ==> after.positions[k] == m.positions[k]
            }
        }),
{
    moves::other_folders_stay(m.folders, folder_keys, from, to, updated, k);
    let rows = moves::moved_records(m.positions, position_keys, from, to);
    moves::last_row_stays(table::without_prefix(m.positions, from), rows);
    assert forall|j: int| 0 <= j < rows.len() implies (#[trigger] rows[j]).0 != k by {
        assert(util::moved(from, to, position_keys[j]) != k);
    }
    assert(table::put_all(table::without_prefix(m.positions, from), rows).contains_key(k)
        == table::without_prefix(m.positions, from).contains_key(k));
}

/// A renaming that can be done moves the folders with their positions: the position of a group in a
/// moved folder is found where the folder has gone.
pub proof fn positions_go_with_their_folder(
    m: CacheModel,
    folder_keys: Seq<Seq<char>>,
    position_keys: Seq<Seq<char>>,
    from: Seq<char>,
    to: Seq<char>,
    updated: Option<TimeStamp>,
    i: int,
    j: int,
    group: Seq<char>,
)
    requires
        moves::can_move_folders(m.folders, folder_keys, from),
        moves::all_under(position_keys, from),
        0 <= i < folder_keys.len(),
        0 <= j < position_keys.len(),
        position_keys[j] == folder_keys[i],
        m.positions.contains_key(position_keys[j]),
        forall|n: int|
            i < n < folder_keys.len() ==> util::moved(from, to, #[trigger] folder_keys[n])
                != util::moved(from, to, folder_keys[i]),
        forall|n: int|
            j < n < position_keys.len() ==> util::moved(from, to, #[trigger] position_keys[n])
                != util::moved(from, to, folder_keys[i]),
    ensures
        ({
            let after = renamed(m, folder_keys, position_keys, from, to, updated);
            let place = util::moved(from, to, folder_keys[i]);
            &&& after.folders.contains_key(place)
            &&& after.folders[place].files.len() == m.folders[folder_keys[i]].files.len()
            &&& after.record(place) == m.record(folder_keys[i])
            &&& m.latest.contains_key(group) && m.latest[group] == folder_keys[i]
                ==> after.latest.contains_key(group) && after.latest[group] == place
        }),
{
    moves::renamed_folder_is_found(m.folders, folder_keys, from, to, updated, i);
    moves::renamed_positions_are_found(m.positions, position_keys, from, to, j);
    assert(paths::is_under(folder_keys[i], from));
}

/// Without rows there is nothing to move.
proof fn nothing_to_move<V>(t: &table::Table<V>, from: Seq<char>)
    requires
        t.wf(),
        forall|k: Seq<char>| #[trigger] t@.contains_key(k) ==> !from.is_prefix_of(k),
    ensures
        table::prefixed(t.keys(), from, 0) == Seq::<Seq<char>>::empty(),
{
    t.reads_off();
    let keys = t.keys();
    let found = table::prefixed(keys, from, 0);
    table::prefixed_finds_all(keys, from, 0);
    if found.len() > 0 {
        assert(found.contains(found[0]));
        let j = choose|j: int| 0 <= j < keys.len() && #[trigger] keys[j] == found[0];
        assert(t@.contains_key(t.key(j)));
    }
    assert(found =~= Seq::empty());
}

impl CacheInner {
    /// What is needed to know what an event means.
    pub open spec fn scene(&self) -> Scene {
        Scene {
            base: self.base_dir@,
            collapse: self.collapse_cd,
            known: self@.folders.dom(),
        }
    }

    /// Whether a full path lies within the collection.
    fn check_held(&self, full_path: &str) -> (r: bool)
        ensures
            r == self.scene().holds(full_path@),
    {
        paths::is_absolute(full_path) && paths::starts_with(full_path, self.base_dir.as_str())
    }

    /// Whether the parent of a full path lies within the collection, if it has to be looked at.
    fn check_parent(&self, full_path: &str) -> (r: bool)
        ensures
            r == self.scene().parent_held(full_path@),
    {
        if !self.collapse_cd {
            return true;
        }
        match paths::parent(full_path) {
            Some(p) => self.check_held(p),
            None => true,
        }
    }

    /// Whether the paths that have to be looked at for an event lie within the collection.
    pub fn can_proceed(&self, evt: &FsEvent, facts: EventFacts) -> (r: bool)
        requires
            self.wf(),
        ensures
            r == self.scene().can_handle(*evt, facts),
    {
        match evt {
            FsEvent::Create(p) => self.check_held(p.as_str()) && self.check_parent(p.as_str()),
            FsEvent::Write(p) | FsEvent::Remove(p) => self.check_held(p.as_str()) && (self.is_dir(
                p.as_str(),
                facts.path,
            ).is_dir() || self.check_parent(p.as_str())),
            FsEvent::Rename(p, q) => {
                if !self.check_held(p.as_str()) {
                    return false;
                }
                if self.is_dir(p.as_str(), facts.path).is_dir() {
                    return true;
                }
                if !self.check_parent(p.as_str()) {
                    return false;
                }
                if !paths::starts_with(q.as_str(), self.base_dir.as_str()) {
                    return true;
                }
                self.check_held(q.as_str()) && (self.is_dir(q.as_str(), facts.dest).is_dir()
                    || self.check_parent(q.as_str()))
            },
            _ => true,
        }
    }

    /// The type of a full path within the collection.
    pub fn is_dir(&self, full_path: &str, facts: PathFacts) -> (r: FolderType)
        requires
            self.wf(),
            self.scene().holds(full_path@),
        ensures
            r == self.scene().type_of(full_path@, facts),
    {
        let col_path = self.strip_base(full_path);
        match facts.kind {
            DirKind::Dir => if self.has_key(col_path) {
                FolderType::RegularDir
            } else if facts.is_collapsable_below {
                FolderType::CollapsedDir
            } else {
                FolderType::NewDir
            },
            DirKind::File => if self.has_key(col_path) {
                FolderType::FileDir
            } else {
                FolderType::NewFileDir
            },
            DirKind::Other => FolderType::RegularFile,
            DirKind::NotFound => if self.has_key(col_path) {
                FolderType::DeletedDir
            } else {
                FolderType::Unknown
            },
            DirKind::Failed => FolderType::Unknown,
        }
    }

    /// The folder that holds a path: its parent, or the parent of that if it is merged.
    pub fn get_true_parent(&self, rel_path: &str, full_path: &str, parent_facts: PathFacts) -> (r:
        String)
        requires
            self.wf(),
            self.scene().holds(full_path@),
            self.scene().parent_held(full_path@),
            rel_path@ == self.scene().rel(full_path@),
        ensures
            r@ == self.scene().true_parent(full_path@, parent_facts),
    {
        let parent = util::parent_path(rel_path);
        if self.collapse_cd {
            if let Some(p) = paths::parent(full_path) {
                if self.is_dir(p, parent_facts).is_collapsed() {
                    return util::parent_path(parent.as_str());
                }
            }
        }
        parent
    }

    /// The updates that the removal of a path asks for.
    fn removal_updates(&self, p: &str, facts: EventFacts) -> (r: Vec<UpdateAction>)
        requires
            self.wf(),
            self.scene().holds(p@),
            !self.scene().is_dir(p@, facts.path) ==> self.scene().parent_held(p@),
        ensures
            update::action_views(r@) == self.scene().removal(p@, facts),
    {
        let col_path = self.strip_base(p);
        let mut out: Vec<UpdateAction> = Vec::new();
        if self.is_dir(p, facts.path).is_dir() {
            out.push(UpdateAction::RemoveFolder(col_path.to_owned()));
            out.push(UpdateAction::RefreshFolder(util::parent_path(col_path)));
        } else {
            out.push(UpdateAction::RefreshFolder(self.get_true_parent(col_path, p, facts.parent)));
        }
        assert(update::action_views(out@) =~= self.scene().removal(p@, facts));
        out
    }

    /// The updates that a change of the file system asks for, in their order.
    pub fn proceed_event(&self, evt: &FsEvent, facts: EventFacts) -> (r: Vec<UpdateAction>)
        requires
            self.wf(),
            self.scene().can_handle(*evt, facts),
        ensures
            update::action_views(r@) == self.scene().updates(*evt, facts),
    {
        let ghost want = self.scene().updates(*evt, facts);
        let mut out: Vec<UpdateAction> = Vec::new();
        match evt {
            FsEvent::Create(p) => {
                let p = p.as_str();
                let col_path = self.strip_base(p);
                if self.is_dir(p, facts.path).is_dir() {
                    out.push(UpdateAction::RefreshFolderRecursive(col_path.to_owned()));
                }
                out.push(
                    UpdateAction::RefreshFolder(self.get_true_parent(col_path, p, facts.parent)),
                );
            },
            FsEvent::Write(p) => {
                let p = p.as_str();
                let col_path = self.strip_base(p);
                if self.is_dir(p, facts.path).is_dir() {
                    out.push(UpdateAction::RefreshFolder(col_path.to_owned()));
                } else {
                    out.push(
                        UpdateAction::RefreshFolder(
                            self.get_true_parent(col_path, p, facts.parent),
                        ),
                    );
                }
            },
            FsEvent::Remove(p) => {
                return self.removal_updates(p.as_str(), facts);
            },
            FsEvent::Rename(p1, p2) => {
                let p1 = p1.as_str();
                let p2 = p2.as_str();
                let col_path = self.strip_base(p1);
                if !paths::starts_with(p2, self.base_dir.as_str()) {
                    return self.removal_updates(p1, facts);
                }
                let dest_path = self.strip_base(p2);
                if self.is_dir(p1, facts.path).is_dir() {
                    if facts.dest.is_collapsable {
                        out.push(UpdateAction::RemoveFolder(col_path.to_owned()));
                    } else {
                        out.push(
                            UpdateAction::RenameFolder {
                                from: col_path.to_owned(),
                                to: dest_path.to_owned(),
                            },
                        );
                    }
                    let orig_parent = util::parent_path(col_path);
                    let new_parent = util::parent_path(dest_path);
                    let diff = !paths::same_path(new_parent.as_str(), orig_parent.as_str());
                    out.push(UpdateAction::RefreshFolder(orig_parent));
                    if diff {
                        out.push(UpdateAction::RefreshFolder(new_parent));
                    }
                } else {
                    out.push(
                        UpdateAction::RefreshFolder(
                            self.get_true_parent(col_path, p1, facts.parent),
                        ),
                    );
                    if self.is_dir(p2, facts.dest).is_dir() {
                        out.push(UpdateAction::RefreshFolder(util::parent_path(dest_path)));
                        out.push(UpdateAction::RefreshFolderRecursive(dest_path.to_owned()));
                    } else {
                        out.push(
                            UpdateAction::RefreshFolder(
                                self.get_true_parent(dest_path, p2, facts.dest_parent),
                            ),
                        );
                    }
                }
            },
            _ => {},
        }
        assert(update::action_views(out@) =~= want);
        out
    }

    /// The entry from which a folder and all below it are listed anew.
    pub fn force_update_recursive(folder: String) -> (r: AudioFolderShort)
        ensures
            r.name@ == audio_meta::shown_name(folder@),
            r.path == folder,
            r.modified is None,
            !r.is_file,
            !r.finished,
    {
        AudioFolderShort {
            name: audio_meta::get_file_name(folder.as_str()),
            modified: None,
            path: folder,
            is_file: false,
            finished: false,
        }
    }

    /// Does an update as far as it can be done without looking at directories; `updated` is the
    /// modification time of a renamed folder.
    pub fn proceed_update(&mut self, action: &UpdateAction, updated: Option<TimeStamp>) -> (r:
        FollowUp)
        requires
            old(self).wf(),
        ensures
            final(self).wf(),
            final(self).same_setup(old(self)),
            final(self).same_numbers(old(self)),
            match action@ {
                ActionView::RefreshFolder(p) => r@ == FollowUpView::List(p) && final(self)@
                    == old(self)@,
                ActionView::RefreshFolderRecursive(p) => r@ == FollowUpView::ListRecursive(p)
                    && final(self)@ == old(self)@,
                ActionView::RemoveFolder(p) => r@ == FollowUpView::Nothing && final(self)@
                    == tree_removed(old(self)@, p),
                ActionView::RenameFolder { from, to } => {
                    let folder_keys = table::prefixed(old(self).folders.keys(), from, 0);
                    let position_keys = table::prefixed(old(self).pos_folder.keys(), from, 0);
                    &&& final(self)@ == renamed(
                        old(self)@,
                        folder_keys,
                        position_keys,
                        from,
                        to,
                        updated,
                    )
                    &&& r@ == if moves::can_move_folders(old(self)@.folders, folder_keys, from) {
                        FollowUpView::Nothing
                    } else {
                        FollowUpView::ListRecursive(to)
                    }
                },
            },
            match (action, r) {
                (UpdateAction::RefreshFolder(p), FollowUp::List(q)) => p@ == q@ && final(self)@
                    == old(self)@,
                (UpdateAction::RefreshFolderRecursive(p), FollowUp::ListRecursive(q)) => p@ == q@
                    && final(self)@ == old(self)@,
                (UpdateAction::RemoveFolder(p), FollowUp::Nothing) => forall|k: Seq<char>|
                    p@.is_prefix_of(k) ==> !(#[trigger] final(self)@.folders.contains_key(k))
                        && !final(self)@.positions.contains_key(k),
                (UpdateAction::RenameFolder { .. }, FollowUp::Nothing) => true,
                (UpdateAction::RenameFolder { from: _, to }, FollowUp::ListRecursive(q)) => to@
                    == q@,
                _ => false,
            },
    {
        match action {
            UpdateAction::RefreshFolder(folder) => FollowUp::List(folder.clone()),
            UpdateAction::RefreshFolderRecursive(folder) => FollowUp::ListRecursive(folder.clone()),
            UpdateAction::RemoveFolder(folder) => {
                self.remove_tree(folder.as_str());
                FollowUp::Nothing
            },
            UpdateAction::RenameFolder { from, to } => {
                let mut todo = FollowUp::Nothing;
                if self.update_recursive_after_rename(
                    from.as_str(),
                    to.as_str(),
                    updated,
                ).is_err() {
                    self.remove_tree(from.as_str());
                    todo = FollowUp::ListRecursive(to.clone());
                    proof {
                        assert forall|k: Seq<char>| #[trigger]
                            self.pos_folder@.contains_key(k) implies !from@.is_prefix_of(k) by {
                            assert(self@.positions.contains_key(k));
                        }
                        nothing_to_move(&self.pos_folder, from@);
                        assert(table::without_prefix(self@.positions, from@)
                            =~= self@.positions);
                        assert(moves::moved_records(self@.positions, Seq::empty(), from@, to@)
                            =~= Seq::empty());
                    }
                }
                if self.rename_positions(from.as_str(), to.as_str()).is_err() {
                    self.remove_positions(from.as_str());
                }
                todo
            },
        }
    }
}

/// A folder is listed anew from an entry that bears its path and its name, and no time, so that it
/// is listed in any case.
pub proof fn listing_starts_at_the_folder(
    folder: String,
    r: AudioFolderShort,
    parent: Seq<char>,
    name: Seq<char>,
)
    requires
        call_ensures(CacheInner::force_update_recursive, (folder,), r),
        paths::is_single_name(name),
        folder@ == paths::joined(parent, name),
    ensures
        r.path == folder,
        r.name@ == name,
        r.modified is None,
        !r.is_file && !r.finished,
{
    paths::name_below_is_last(parent, name);
}

/// What is left to be done is told by its texts without loss.
pub proof fn follow_up_views_tell_everything(f: FollowUp)
    ensures
        match (f, f@) {
            (FollowUp::Nothing, FollowUpView::Nothing) => true,
            (FollowUp::List(p), FollowUpView::List(q)) => p@ == q,
            (FollowUp::ListRecursive(p), FollowUpView::ListRecursive(q)) => p@ == q,
            _ => false,
        },
{
}

} // verus!
