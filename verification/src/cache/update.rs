//! Updates of the cache that wait to be done.

use crate::paths;
use vstd::prelude::*;

verus! {

/// A change of the file system, as it is reported.
#[derive(Debug)]
pub enum FsEvent {
    NoticeWrite(String),
    NoticeRemove(String),
    Create(String),
    Write(String),
    Chmod(String),
    Remove(String),
    Rename(String, String),
    Rescan,
    Error(String, Option<String>),
}

/// What is to be done about a reported change.
#[derive(Debug)]
pub enum FilteredEvent {
    Pass(FsEvent),
    Error(String, Option<String>),
    Rescan,
    Ignore,
}

/// Sorts out the changes that matter: creations, writes, removals and renamings pass.
pub fn filter_event(evt: FsEvent) -> (r: FilteredEvent)
    ensures
        r == match evt {
            FsEvent::Create(_) | FsEvent::Write(_) | FsEvent::Remove(_) | FsEvent::Rename(
                _,
                _,
            ) => FilteredEvent::Pass(evt),
            FsEvent::NoticeWrite(_) | FsEvent::NoticeRemove(_) | FsEvent::Chmod(_) => {
                FilteredEvent::Ignore
            },
            FsEvent::Rescan => FilteredEvent::Rescan,
            FsEvent::Error(e, p) => FilteredEvent::Error(e, p),
        },
{
    match evt {
        FsEvent::NoticeWrite(_) => FilteredEvent::Ignore,
        FsEvent::NoticeRemove(_) => FilteredEvent::Ignore,
        FsEvent::Create(p) => FilteredEvent::Pass(FsEvent::Create(p)),
        FsEvent::Write(p) => FilteredEvent::Pass(FsEvent::Write(p)),
        FsEvent::Chmod(_) => FilteredEvent::Ignore,
        FsEvent::Remove(p) => FilteredEvent::Pass(FsEvent::Remove(p)),
        FsEvent::Rename(p, q) => FilteredEvent::Pass(FsEvent::Rename(p, q)),
        FsEvent::Rescan => FilteredEvent::Rescan,
        FsEvent::Error(e, p) => FilteredEvent::Error(e, p),
    }
}

/// Changes of contents pass as they are; notices of changes to come and changes of permissions are
/// ignored; errors and the wish to look again at everything are told.
pub proof fn changes_of_contents_pass(evt: FsEvent, r: FilteredEvent)
    requires
        call_ensures(filter_event, (evt,), r),
    ensures
        r is Pass <==> evt is Create || evt is Write || evt is Remove || evt is Rename,
        r matches FilteredEvent::Pass(e) ==> e == evt,
        r is Ignore <==> evt is NoticeWrite || evt is NoticeRemove || evt is Chmod,
        r is Rescan <==> evt is Rescan,
        r is Error <==> evt is Error,
{
}

/// An update of the cache; paths are relative to the collection.
#[derive(Debug)]
pub enum UpdateAction {
    /// Lists a folder anew.
    RefreshFolder(String),
    /// Lists a folder and all below it anew.
    RefreshFolderRecursive(String),
    /// Takes out a folder and all below it.
    RemoveFolder(String),
    /// Moves a folder and all below it.
    RenameFolder { from: String, to: String },
}

/// An update of the cache, with texts for its paths.
pub enum ActionView {
    RefreshFolder(Seq<char>),
    RefreshFolderRecursive(Seq<char>),
    RemoveFolder(Seq<char>),
    RenameFolder { from: Seq<char>, to: Seq<char> },
}

impl View for UpdateAction {
    type V = ActionView;

    open spec fn view(&self) -> ActionView {
        match self {
            UpdateAction::RefreshFolder(p) => ActionView::RefreshFolder(p@),
            UpdateAction::RefreshFolderRecursive(p) => ActionView::RefreshFolderRecursive(p@),
            UpdateAction::RemoveFolder(p) => ActionView::RemoveFolder(p@),
            UpdateAction::RenameFolder { from, to } => ActionView::RenameFolder {
                from: from@,
                to: to@,
            },
        }
    }
}

/// An update is told by its texts without loss.
pub proof fn update_views_tell_everything(a: UpdateAction)
    ensures
        match (a, a@) {
            (UpdateAction::RefreshFolder(p), ActionView::RefreshFolder(q)) => p@ == q,
            (UpdateAction::RefreshFolderRecursive(p), ActionView::RefreshFolderRecursive(q)) => p@
                == q,
            (UpdateAction::RemoveFolder(p), ActionView::RemoveFolder(q)) => p@ == q,
            (
                UpdateAction::RenameFolder { from, to },
                ActionView::RenameFolder { from: f, to: t },
            ) => from@ == f && to@ == t,
            _ => false,
        },
{
}

/// The views of a list of updates.
pub open spec fn action_views(v: Seq<UpdateAction>) -> Seq<ActionView> {
    v.map_values(|a: UpdateAction| a@)
}

/// Two paths have the same components.
pub open spec fn same(a: Seq<char>, b: Seq<char>) -> bool {
    paths::components(a) == paths::components(b)
}

/// Doing `b` makes doing `a` before it needless: a refresh is covered by a refresh of the same
/// folder, and by a recursive refresh or the removal of a folder above it; a removal only by a
/// removal, and a renaming only by the same one.
pub open spec fn covered(a: ActionView, b: ActionView) -> bool {
    match (a, b) {
        (ActionView::RefreshFolder(p), ActionView::RefreshFolder(q)) => same(p, q),
        (ActionView::RefreshFolder(p), ActionView::RefreshFolderRecursive(q)) => paths::is_under(
            p,
            q,
        ),
        (ActionView::RefreshFolder(p), ActionView::RemoveFolder(q)) => paths::is_under(p, q),
        (
            ActionView::RefreshFolderRecursive(p),
            ActionView::RefreshFolderRecursive(q),
        ) => paths::is_under(p, q),
        (ActionView::RefreshFolderRecursive(p), ActionView::RemoveFolder(q)) => paths::is_under(
            p,
            q,
        ),
        (ActionView::RemoveFolder(p), ActionView::RemoveFolder(q)) => paths::is_under(p, q),
        (
            ActionView::RenameFolder { from: f, to: t },
            ActionView::RenameFolder { from: g, to: u },
        ) => same(f, g) && same(t, u),
        _ => false,
    }
}

/// Two updates are the same one.
pub open spec fn same_action(a: ActionView, b: ActionView) -> bool {
    match (a, b) {
        (ActionView::RefreshFolder(p), ActionView::RefreshFolder(q)) => same(p, q),
        (ActionView::RefreshFolderRecursive(p), ActionView::RefreshFolderRecursive(q)) => same(
            p,
            q,
        ),
        (ActionView::RemoveFolder(p), ActionView::RemoveFolder(q)) => same(p, q),
        (
            ActionView::RenameFolder { from: f, to: t },
            ActionView::RenameFolder { from: g, to: u },
        ) => same(f, g) && same(t, u),
        _ => false,
    }
}

/// Lying under a path is reflexive and transitive.
pub proof fn under_is_transitive(a: Seq<char>, b: Seq<char>, c: Seq<char>)
    ensures
        paths::is_under(a, a),
        paths::is_under(a, b) && paths::is_under(b, c) ==> paths::is_under(a, c),
{
    let (x, y, z) = (paths::components(a), paths::components(b), paths::components(c));
    assert(x.subrange(0, x.len() as int) =~= x);
    if paths::is_under(a, b) && paths::is_under(b, c) {
        assert(x.subrange(0, z.len() as int) =~= y.subrange(0, z.len() as int)) by {
            assert forall|i: int| 0 <= i < z.len() implies x[i] == y[i] by {
                assert(x.subrange(0, y.len() as int)[i] == y[i]);
            }
        }
    }
}

/// Covering is transitive, every update covers itself, and two updates that cover each other are
/// the same.
pub proof fn covering_is_transitive(a: ActionView, b: ActionView, c: ActionView)
    ensures
        covered(a, a),
        covered(a, b) && covered(b, c) ==> covered(a, c),
        same_action(a, b) <==> covered(a, b) && covered(b, a),
{
    let path = |x: ActionView|
        match x {
            ActionView::RefreshFolder(p) => p,
            ActionView::RefreshFolderRecursive(p) => p,
            ActionView::RemoveFolder(p) => p,
            ActionView::RenameFolder { from, to } => from,
        };
    under_is_transitive(path(a), path(b), path(c));
    under_is_transitive(path(b), path(a), path(c));
}

/// Whether an update renews the folder at a path, or takes it out: itself alone, or with all below
/// it.
pub open spec fn touches(a: ActionView, p: Seq<char>) -> bool {
    match a {
        ActionView::RefreshFolder(q) => same(p, q),
        ActionView::RefreshFolderRecursive(q) => paths::is_under(p, q),
        ActionView::RemoveFolder(q) => paths::is_under(p, q),
        ActionView::RenameFolder { from, to } => paths::is_under(p, from),
    }
}

/// An update is covered only by one that touches all that it touches. A removal is covered only by
/// a removal, a renaming only by one between the same places, and listing all below a folder not by
/// listing the folder alone; else it is enough that the other one touches its folder.
pub proof fn covering_updates_touch_no_less(a: ActionView, b: ActionView, p: Seq<char>)
    ensures
        covered(a, b) && touches(a, p) ==> touches(b, p),
        covered(a, b) && a is RemoveFolder ==> b is RemoveFolder,
        covered(a, b) && a is RefreshFolderRecursive ==> !(b is RefreshFolder),
        covered(a, b) ==> (a is RenameFolder <==> b is RenameFolder),
        match (a, b) {
            (
                ActionView::RenameFolder { from: f, to: t },
                ActionView::RenameFolder { from: g, to: u },
            ) => covered(a, b) <==> paths::components(f) == paths::components(g)
                && paths::components(t) == paths::components(u),
            (ActionView::RefreshFolder(q), ActionView::RenameFolder { .. }) => !covered(a, b),
            (ActionView::RefreshFolder(q), _) => covered(a, b) <==> touches(b, q),
            (ActionView::RefreshFolderRecursive(q), ActionView::RefreshFolderRecursive(_)) => {
                covered(a, b) <==> touches(b, q)
            },
            (ActionView::RefreshFolderRecursive(q), ActionView::RemoveFolder(_)) => {
                covered(a, b) <==> touches(b, q)
            },
            (ActionView::RemoveFolder(q), ActionView::RemoveFolder(_)) => covered(a, b) <==> touches(
                b,
                q,
            ),
            _ => true,
        },
{
    let path = |x: ActionView|
        match x {
            ActionView::RefreshFolder(q) => q,
            ActionView::RefreshFolderRecursive(q) => q,
            ActionView::RemoveFolder(q) => q,
            ActionView::RenameFolder { from, to } => from,
        };
    under_is_transitive(p, path(a), path(b));
    under_is_transitive(path(a), path(a), path(b));
}

impl UpdateAction {
    /// Whether doing `other` makes doing this one before it needless.
    pub fn is_covered_by(&self, other: &UpdateAction) -> (r: bool)
        ensures
            r == covered(self@, other@),
    {
        match self {
            UpdateAction::RefreshFolder(my_path) => match other {
                UpdateAction::RefreshFolder(other_path) => paths::same_path(
                    my_path.as_str(),
                    other_path.as_str(),
                ),
                UpdateAction::RefreshFolderRecursive(other_path) => paths::starts_with(
                    my_path.as_str(),
                    other_path.as_str(),
                ),
                UpdateAction::RemoveFolder(other_path) => paths::starts_with(
                    my_path.as_str(),
                    other_path.as_str(),
                ),
                UpdateAction::RenameFolder { .. } => false,
            },
            UpdateAction::RefreshFolderRecursive(my_path) => match other {
                UpdateAction::RefreshFolder(_) => false,
                UpdateAction::RefreshFolderRecursive(other_path) => paths::starts_with(
                    my_path.as_str(),
                    other_path.as_str(),
                ),
                UpdateAction::RemoveFolder(other_path) => paths::starts_with(
                    my_path.as_str(),
                    other_path.as_str(),
                ),
                UpdateAction::RenameFolder { .. } => false,
            },
            UpdateAction::RemoveFolder(my_path) => match other {
                UpdateAction::RefreshFolder(_) => false,
                UpdateAction::RefreshFolderRecursive(_) => false,
                UpdateAction::RemoveFolder(other_path) => paths::starts_with(
                    my_path.as_str(),
                    other_path.as_str(),
                ),
                UpdateAction::RenameFolder { .. } => false,
            },
            UpdateAction::RenameFolder { from: my_from, to: my_to } => match other {
                UpdateAction::RefreshFolder(_) => false,
                UpdateAction::RefreshFolderRecursive(_) => false,
                UpdateAction::RemoveFolder(_) => false,
                UpdateAction::RenameFolder { from: other_from, to: other_to } => paths::same_path(
                    my_from.as_str(),
                    other_from.as_str(),
                ) && paths::same_path(my_to.as_str(), other_to.as_str()),
            },
        }
    }

    /// Whether this is the same update as `other`.
    pub fn is_same_as(&self, other: &UpdateAction) -> (r: bool)
        ensures
            r == same_action(self@, other@),
    {
        match (self, other) {
            (UpdateAction::RefreshFolder(p), UpdateAction::RefreshFolder(q)) => paths::same_path(
                p.as_str(),
                q.as_str(),
            ),
            (
                UpdateAction::RefreshFolderRecursive(p),
                UpdateAction::RefreshFolderRecursive(q),
            ) => paths::same_path(p.as_str(), q.as_str()),
            (UpdateAction::RemoveFolder(p), UpdateAction::RemoveFolder(q)) => paths::same_path(
                p.as_str(),
                q.as_str(),
            ),
            (
                UpdateAction::RenameFolder { from: f, to: t },
                UpdateAction::RenameFolder { from: g, to: u },
            ) => paths::same_path(f.as_str(), g.as_str()) && paths::same_path(
                t.as_str(),
                u.as_str(),
            ),
            _ => false,
        }
    }

    /// The path of the folder that is updated.
    pub fn as_ref(&self) -> (r: &str)
        ensures
            r@ == match self@ {
                ActionView::RefreshFolder(p) => p,
                ActionView::RefreshFolderRecursive(p) => p,
                ActionView::RemoveFolder(p) => p,
                ActionView::RenameFolder { from, to } => from,
            },
    {
        match self {
            UpdateAction::RefreshFolder(folder) => folder.as_str(),
            UpdateAction::RefreshFolderRecursive(folder) => folder.as_str(),
            UpdateAction::RemoveFolder(folder) => folder.as_str(),
            UpdateAction::RenameFolder { from, .. } => from.as_str(),
        }
    }
}

/// How many of the following updates are looked at for one that covers an update.
pub const WINDOW: usize = 100;

/// For how many seconds it has to be quiet before waiting updates are done.
pub const INTERVAL_SECONDS: u64 = 10;

/// How many updates may wait.
pub const MAX_PENDING: usize = 10_000;

/// Updates are done when it has been quiet for ten seconds, or when ten thousand wait; and each is
/// held against the hundred after it.
pub proof fn updates_wait_ten_seconds()
    ensures
        INTERVAL_SECONDS == 10,
        MAX_PENDING == 10_000,
        WINDOW == 100,
{
}

/// An update that waits, and when it was asked for.
pub type PendingView = (ActionView, int);

/// Whether the update at place `i` is covered by one of those shortly after it.
pub open spec fn is_superseded(pending: Seq<PendingView>, i: int) -> bool {
    exists|j: int|
        i < j < pending.len() && j <= i + WINDOW && covered(
            pending[i].0,
            (#[trigger] pending[j]).0,
        )
}

/// The updates of those from place `i` on that are not covered by one shortly after them.
pub open spec fn survivors(pending: Seq<PendingView>, i: int) -> Seq<ActionView>
    decreases pending.len() - i,
{
    if i < 0 || i >= pending.len() {
        Seq::empty()
    } else if is_superseded(pending, i) {
        survivors(pending, i + 1)
    } else {
        seq![pending[i].0] + survivors(pending, i + 1)
    }
}

/// Every waiting update is done, or covered by one that is done after it would have been.
pub proof fn every_update_is_done_or_covered(pending: Seq<PendingView>, i: int, j: int)
    requires
        0 <= i <= j < pending.len(),
    ensures
        exists|k: int|
            0 <= k < survivors(pending, i).len() && covered(
                pending[j].0,
                #[trigger] survivors(pending, i)[k],
            ),
    decreases pending.len() - i,
{
    let done = survivors(pending, i);
    let rest = survivors(pending, i + 1);
    if is_superseded(pending, i) {
        assert(done == rest);
        if j == i {
            let n = choose|n: int|
                i < n < pending.len() && n <= i + WINDOW && covered(
                    pending[i].0,
                    (#[trigger] pending[n]).0,
                );
            every_update_is_done_or_covered(pending, i + 1, n);
            let k = choose|k: int|
                0 <= k < rest.len() && covered(pending[n].0, #[trigger] rest[k]);
            covering_is_transitive(pending[i].0, pending[n].0, rest[k]);
            assert(covered(pending[j].0, done[k]));
        } else {
            every_update_is_done_or_covered(pending, i + 1, j);
        }
    } else {
        assert(done =~= seq![pending[i].0] + rest);
        if j == i {
            covering_is_transitive(pending[i].0, pending[i].0, pending[i].0);
            assert(covered(pending[j].0, done[0]));
        } else {
            every_update_is_done_or_covered(pending, i + 1, j);
            let k = choose|k: int|
                0 <= k < rest.len() && covered(pending[j].0, #[trigger] rest[k]);
            assert(done[k + 1] == rest[k]);
            assert(covered(pending[j].0, done[k + 1]));
        }
    }
}

/// Nothing is done that was not asked for, and the oldest update comes first.
pub proof fn done_updates_were_asked_for(pending: Seq<PendingView>, i: int)
    requires
        0 <= i,
    ensures
        forall|k: int|
            0 <= k < survivors(pending, i).len() ==> exists|j: int|
                i <= j < pending.len() && (#[trigger] pending[j]).0 == #[trigger] survivors(
                    pending,
                    i,
                )[k],
        survivors(pending, i).len() <= if i < pending.len() {
            pending.len() - i
        } else {
            0
        },
    decreases pending.len() - i,
{
    if i < pending.len() {
        done_updates_were_asked_for(pending, i + 1);
        let done = survivors(pending, i);
        let rest = survivors(pending, i + 1);
        assert forall|k: int| 0 <= k < done.len() implies exists|j: int|
            i <= j < pending.len() && (#[trigger] pending[j]).0 == #[trigger] done[k] by {
            if is_superseded(pending, i) {
                assert(done[k] == rest[k]);
            } else if k == 0 {
                assert(pending[i].0 == done[0]);
            } else {
                assert(done[k] == rest[k - 1]);
            }
        }
    }
}

/// Where no update covers another one, all are done, in the order in which they were asked for.
pub proof fn updates_are_done_in_order(pending: Seq<PendingView>, i: int)
    requires
        0 <= i <= pending.len(),
        forall|a: int, b: int|
            0 <= a < b < pending.len() ==> !covered(
                (#[trigger] pending[a]).0,
                (#[trigger] pending[b]).0,
            ),
    ensures
        survivors(pending, i) == pending.skip(i).map_values(|p: PendingView| p.0),
    decreases pending.len() - i,
{
    if i < pending.len() {
        updates_are_done_in_order(pending, i + 1);
        assert(!is_superseded(pending, i));
        assert(survivors(pending, i) =~= pending.skip(i).map_values(|p: PendingView| p.0));
    } else {
        assert(survivors(pending, i) =~= pending.skip(i).map_values(|p: PendingView| p.0));
    }
}

/// An update is left out exactly if one of the hundred that were asked for after it covers it: it
/// is then done before all later ones, or the later ones alone are.
pub proof fn covered_updates_are_left_out(pending: Seq<PendingView>, i: int)
    requires
        0 <= i < pending.len(),
    ensures
        (exists|j: int|
            i < j <= i + 100 && j < pending.len() && covered(
                pending[i].0,
                (#[trigger] pending[j]).0,
            )) ==> survivors(pending, i) == survivors(pending, i + 1),
        !(exists|j: int|
            i < j <= i + 100 && j < pending.len() && covered(
                pending[i].0,
                (#[trigger] pending[j]).0,
            )) ==> survivors(pending, i).len() > 0 && survivors(pending, i)[0] == pending[i].0
            && survivors(pending, i).skip(1) == survivors(pending, i + 1),
{
    if exists|j: int|
        i < j <= i + 100 && j < pending.len() && covered(
            pending[i].0,
            (#[trigger] pending[j]).0,
        ) {
        let j = choose|j: int|
            i < j <= i + 100 && j < pending.len() && covered(
                pending[i].0,
                (#[trigger] pending[j]).0,
            );
        assert(is_superseded(pending, i)) by {
            assert(covered(pending[i].0, pending[j].0));
        }
    } else {
        assert(!is_superseded(pending, i));
        assert(survivors(pending, i).skip(1) =~= survivors(pending, i + 1));
    }
}

/// Something that happens to the queue of updates.
#[derive(Debug)]
pub enum QueueEvent {
    /// An update is asked for, at a time in nanoseconds.
    Action(UpdateAction, i128),
    /// No more updates will come.
    Finished,
    /// The queue was closed.
    Disconnected,
    /// No update came for a while.
    Timeout,
}

/// Collects updates until it has been quiet for a while.
#[derive(Debug)]
pub struct OngoingUpdater {
    pending: Vec<(UpdateAction, i128)>,
}

impl View for OngoingUpdater {
    type V = Seq<PendingView>;

    closed spec fn view(&self) -> Seq<PendingView> {
        self.pending@.map_values(|p: (UpdateAction, i128)| (p.0@, p.1 as int))
    }
}

/// The waiting updates are in the order of their times.
pub open spec fn in_time_order(pending: Seq<PendingView>) -> bool {
    forall|i: int, j: int|
        0 <= i < j < pending.len() ==> (#[trigger] pending[i]).1 <= (#[trigger] pending[j]).1
}

/// No two waiting updates are the same.
pub open spec fn no_action_twice(pending: Seq<PendingView>) -> bool {
    forall|i: int, j: int|
        0 <= i < j < pending.len() ==> !same_action(
            (#[trigger] pending[i]).0,
            (#[trigger] pending[j]).0,
        )
}

/// The place of the first update from `i` on that is the same as `a`, or the end.
pub open spec fn find_same(pending: Seq<PendingView>, a: ActionView, i: int) -> int
    decreases pending.len() - i,
{
    if i < 0 || i >= pending.len() {
        pending.len() as int
    } else if same_action(pending[i].0, a) {
        i
    } else {
        find_same(pending, a, i + 1)
    }
}

/// The place where an update of the given time goes: after all that are not later.
pub open spec fn place_for(pending: Seq<PendingView>, at: int) -> int
    decreases pending.len(),
{
    if pending.len() == 0 || pending.last().1 <= at {
        pending.len() as int
    } else {
        place_for(pending.drop_last(), at)
    }
}

/// The waiting updates after one more was asked for: an update that was already waiting gets
/// the new time.
pub open spec fn with_action(pending: Seq<PendingView>, a: ActionView, at: int) -> Seq<PendingView> {
    let k = find_same(pending, a, 0);
    if k < pending.len() {
        let kept = pending.remove(k);
        kept.insert(place_for(kept, at), (pending[k].0, at))
    } else {
        pending.insert(place_for(pending, at), (a, at))
    }
}

/// What `find_same` finds is the first one.
proof fn find_same_is_first(pending: Seq<PendingView>, a: ActionView, i: int)
    requires
        0 <= i <= pending.len(),
    ensures
        i <= find_same(pending, a, i) <= pending.len(),
        find_same(pending, a, i) < pending.len() ==> same_action(
            pending[find_same(pending, a, i)].0,
            a,
        ),
        forall|j: int|
            i <= j < find_same(pending, a, i) ==> !same_action((#[trigger] pending[j]).0, a),
    decreases pending.len() - i,
{
    if i < pending.len() && !same_action(pending[i].0, a) {
        find_same_is_first(pending, a, i + 1);
    }
}

/// What stands before the place for a time is not later, and what stands after it is.
proof fn place_for_keeps_order(pending: Seq<PendingView>, at: int)
    requires
        in_time_order(pending),
    ensures
        0 <= place_for(pending, at) <= pending.len(),
        forall|j: int| 0 <= j < place_for(pending, at) ==> (#[trigger] pending[j]).1 <= at,
        forall|j: int| place_for(pending, at) <= j < pending.len() ==> (#[trigger] pending[j]).1 > at,
    decreases pending.len(),
{
    if pending.len() > 0 && pending.last().1 > at {
        let front = pending.drop_last();
        assert(in_time_order(front)) by {
            assert forall|i: int, j: int| 0 <= i < j < front.len() implies (#[trigger] front[i]).1
                <= (#[trigger] front[j]).1 by {
                assert(pending[i].1 <= pending[j].1);
            }
        }
        place_for_keeps_order(front, at);
        assert forall|j: int| 0 <= j < place_for(pending, at) implies (#[trigger] pending[j]).1
            <= at by {
            assert(front[j].1 <= at);
        }
        assert forall|j: int| place_for(pending, at) <= j < pending.len() implies (
        #[trigger] pending[j]).1 > at by {
            if j < front.len() {
                assert(front[j].1 > at);
            }
        }
    } else if pending.len() > 0 {
        assert forall|j: int| 0 <= j < pending.len() implies (#[trigger] pending[j]).1 <= at by {
            assert(pending[j].1 <= pending.last().1);
        }
    }
}

/// Being the same update is symmetric and transitive.
proof fn same_action_is_equivalence(a: ActionView, b: ActionView, c: ActionView)
    ensures
        same_action(a, b) ==> same_action(b, a),
        same_action(a, b) && same_action(b, c) ==> same_action(a, c),
{
}

/// Putting an update without a double at its place keeps the order and makes no double.
proof fn inserting_keeps_order(kept: Seq<PendingView>, name: ActionView, at: int)
    requires
        in_time_order(kept),
        no_action_twice(kept),
        forall|j: int| 0 <= j < kept.len() ==> !same_action((#[trigger] kept[j]).0, name),
    ensures
        in_time_order(kept.insert(place_for(kept, at), (name, at))),
        no_action_twice(kept.insert(place_for(kept, at), (name, at))),
{
    place_for_keeps_order(kept, at);
    let p = place_for(kept, at);
    let all = kept.insert(p, (name, at));
    let back = |i: int|
        if i < p {
            i
        } else {
            i - 1
        };
    assert forall|i: int, j: int| 0 <= i < j < all.len() implies (#[trigger] all[i]).1 <= (
    #[trigger] all[j]).1 && !same_action(all[i].0, all[j].0) by {
        if i == p {
            let b = kept[j - 1];
            assert(all[j] == b);
            same_action_is_equivalence(name, b.0, name);
        } else if j == p {
            assert(all[i] == kept[i]);
        } else {
            assert(all[i] == kept[back(i)]);
            assert(all[j] == kept[back(j)]);
        }
    }
}

/// Asking for an update keeps the waiting ones in order and without doubles.
pub proof fn asking_keeps_order(pending: Seq<PendingView>, a: ActionView, at: int)
    requires
        in_time_order(pending),
        no_action_twice(pending),
    ensures
        in_time_order(with_action(pending, a, at)),
        no_action_twice(with_action(pending, a, at)),
{
    find_same_is_first(pending, a, 0);
    let k = find_same(pending, a, 0);
    if k < pending.len() {
        let kept = pending.remove(k);
        let name = pending[k].0;
        let up = |i: int|
            if i < k {
                i
            } else {
                i + 1
            };
        assert forall|i: int, j: int| 0 <= i < j < kept.len() implies (#[trigger] kept[i]).1 <= (
        #[trigger] kept[j]).1 && !same_action(kept[i].0, kept[j].0) by {
            assert(kept[i] == pending[up(i)]);
            assert(kept[j] == pending[up(j)]);
        }
        assert forall|j: int| 0 <= j < kept.len() implies !same_action(
            (#[trigger] kept[j]).0,
            name,
        ) by {
            assert(kept[j] == pending[up(j)]);
            same_action_is_equivalence(kept[j].0, name, name);
        }
        inserting_keeps_order(kept, name, at);
    } else {
        inserting_keeps_order(pending, a, at);
    }
}

/// Asking for an update lets it wait with the time at which it was asked for; another one waits as
/// before, and one that was waiting already does not wait twice.
pub proof fn asked_updates_wait(pending: Seq<PendingView>, a: ActionView, at: int)
    requires
        in_time_order(pending),
        no_action_twice(pending),
    ensures
        ({
            let after = with_action(pending, a, at);
            &&& exists|i: int|
                0 <= i < after.len() && same_action((#[trigger] after[i]).0, a) && after[i].1 == at
            &&& forall|p: PendingView|
                !same_action(p.0, a) ==> (#[trigger] after.contains(p) <==> pending.contains(p))
            &&& after.len() == pending.len() || after.len() == pending.len() + 1
            &&& after.len() == pending.len() <==> exists|i: int|
                0 <= i < pending.len() && same_action((#[trigger] pending[i]).0, a)
        }),
{
    find_same_is_first(pending, a, 0);
    let k = find_same(pending, a, 0);
    let after = with_action(pending, a, at);
    let found = k < pending.len();
    let kept = if found {
        pending.remove(k)
    } else {
        pending
    };
    let name = if found {
        pending[k].0
    } else {
        a
    };
    let place = place_for(kept, at);
    place_lies_within(kept, at);
    assert(after == kept.insert(place, (name, at)));
    same_action_is_equivalence(a, a, a);
    assert(same_action(name, a));
    assert(after[place] == (name, at));
    assert forall|p: PendingView| !same_action(p.0, a) implies (#[trigger] after.contains(p)
        <==> pending.contains(p)) by {
        inserting_keeps_others(kept, place, (name, at), p);
        if found {
            removing_keeps_others(pending, k, p);
        }
    }
}

/// Inserting something keeps all else in a list.
proof fn inserting_keeps_others(s: Seq<PendingView>, i: int, x: PendingView, p: PendingView)
    requires
        0 <= i <= s.len(),
        p != x,
    ensures
        s.insert(i, x).contains(p) <==> s.contains(p),
{
    let t = s.insert(i, x);
    if t.contains(p) {
        let n = choose|n: int| 0 <= n < t.len() && t[n] == p;
        assert(s[if n < i { n } else { n - 1 }] == p);
    }
    if s.contains(p) {
        let n = choose|n: int| 0 <= n < s.len() && s[n] == p;
        assert(t[if n < i { n } else { n + 1 }] == p);
    }
}

/// Removing something keeps all else in a list.
proof fn removing_keeps_others(s: Seq<PendingView>, k: int, p: PendingView)
    requires
        0 <= k < s.len(),
        p != s[k],
    ensures
        s.remove(k).contains(p) <==> s.contains(p),
{
    let t = s.remove(k);
    if t.contains(p) {
        let n = choose|n: int| 0 <= n < t.len() && t[n] == p;
        assert(s[if n < k { n } else { n + 1 }] == p);
    }
    if s.contains(p) {
        let n = choose|n: int| 0 <= n < s.len() && s[n] == p;
        assert(t[if n < k { n } else { n - 1 }] == p);
    }
}

/// The place of an update lies within the list or at its end.
proof fn place_lies_within(pending: Seq<PendingView>, at: int)
    ensures
        0 <= place_for(pending, at) <= pending.len(),
    decreases pending.len(),
{
    if pending.len() > 0 && pending.last().1 > at {
        place_lies_within(pending.drop_last(), at);
    }
}

impl OngoingUpdater {
    /// The waiting updates are in the order of their times, and none waits twice.
    pub open spec fn wf(&self) -> bool {
        in_time_order(self@) && no_action_twice(self@)
    }

    /// An updater for which nothing waits.
    pub fn new() -> (r: Self)
        ensures
            r.wf(),
            r@ == Seq::<PendingView>::empty(),
    {
        let r = OngoingUpdater { pending: Vec::new() };
        assert(r@ =~= Seq::empty());
        r
    }

    /// Lets an update wait that was asked for at the given time.
    fn insert(&mut self, action: UpdateAction, at: i128)
        requires
            old(self).wf(),
        ensures
            final(self).wf(),
            final(self)@ == with_action(old(self)@, action@, at as int),
    {
        let ghost all = self@;
        let ghost a = action@;
        proof {
            asking_keeps_order(all, a, at as int);
            find_same_is_first(all, a, 0);
        }
        let mut k: usize = 0;
        while k < self.pending.len() && !self.pending[k].0.is_same_as(&action)
            invariant
                self@ == all,
                a == action@,
                all.len() == self.pending@.len(),
                k <= self.pending.len(),
                forall|j: int| 0 <= j < k ==> !same_action((#[trigger] all[j]).0, a),
            decreases self.pending.len() - k,
        {
            assert(all[k as int].0 == self.pending@[k as int].0@);
            k += 1;
        }
        assert(k < self.pending.len() ==> same_action(all[k as int].0, a)) by {
            if k < self.pending.len() {
                assert(all[k as int].0 == self.pending@[k as int].0@);
            }
        }
        assert(k == find_same(all, a, 0)) by {
            let f = find_same(all, a, 0);
            if f < k {
                assert(same_action(all[f].0, a));
            }
            if k < f {
                assert(same_action(all[k as int].0, a));
            }
        }
        let kept_action = if k < self.pending.len() {
            let (name, _) = self.pending.remove(k);
            assert(self@ =~= all.remove(k as int));
            name
        } else {
            action
        };
        let ghost kept = self@;
        let ghost name = kept_action@;
        assert(k < all.len() ==> name == all[k as int].0);
        let n = self.pending.len();
        let mut p: usize = n;
        assert(kept.take(n as int) =~= kept);
        while p > 0 && self.pending[p - 1].1 > at
            invariant
                self@ == kept,
                n == self.pending@.len(),
                kept.len() == n,
                p <= n,
                place_for(kept, at as int) == place_for(kept.take(p as int), at as int),
            decreases p,
        {
            let ghost t = kept.take(p as int);
            assert(t.last() == kept[p - 1]);
            assert(kept[p - 1].1 == self.pending@[p - 1].1);
            assert(t.drop_last() =~= kept.take(p - 1));
            p -= 1;
        }
        assert(place_for(kept, at as int) == p) by {
            if p > 0 {
                assert(kept.take(p as int).last() == kept[p - 1]);
                assert(kept[p - 1].1 == self.pending@[p - 1].1);
            }
        }
        self.pending.insert(p, (kept_action, at));
        assert(self@ =~= kept.insert(p as int, (name, at as int)));
    }

    /// Whether the update at place `i` is covered by one of those shortly after it.
    fn superseded(&self, i: usize) -> (r: bool)
        requires
            i < self@.len(),
        ensures
            r == is_superseded(self@, i as int),
    {
        let n = self.pending.len();
        let mut j: usize = i + 1;
        while j < n && j - i <= WINDOW
            invariant
                n == self.pending@.len(),
                n == self@.len(),
                i < j <= n,
                j <= i + WINDOW + 1,
                forall|k: int|
                    i < k < j ==> !covered(self@[i as int].0, (#[trigger] self@[k]).0),
            decreases n - j,
        {
            assert(self@[j as int].0 == self.pending@[j as int].0@);
            assert(self@[i as int].0 == self.pending@[i as int].0@);
            if self.pending[i].0.is_covered_by(&self.pending[j].0) {
                return true;
            }
            j += 1;
        }
        false
    }

    /// Takes all waiting updates and gives those that are to be done, the oldest first; an update
    /// that is covered by one of those shortly after it is left out.
    pub fn send_actions(&mut self) -> (r: Vec<UpdateAction>)
        requires
            old(self).wf(),
        ensures
            final(self).wf(),
            final(self)@ == Seq::<PendingView>::empty(),
            action_views(r@) == survivors(old(self)@, 0),
    {
        let ghost all = self@;
        let n = self.pending.len();
        let mut skip: Vec<bool> = Vec::new();
        let mut i: usize = 0;
        while i < n
            invariant
                self@ == all,
                n == all.len(),
                i <= n,
                skip@.len() == i,
                forall|j: int| 0 <= j < i ==> #[trigger] skip@[j] == is_superseded(all, j),
            decreases n - i,
        {
            skip.push(self.superseded(i));
            i += 1;
        }
        let mut done: Vec<(UpdateAction, i128)> = Vec::new();
        std::mem::swap(&mut self.pending, &mut done);
        assert(self@ =~= Seq::empty());
        let ghost given = done@;
        let mut out: Vec<UpdateAction> = Vec::new();
        let mut i: usize = 0;
        assert(action_views(out@) + survivors(all, 0) =~= survivors(all, 0));
        for p in it: done
            invariant
                it.seq() == given,
                given.len() == n,
                all == given.map_values(|p: (UpdateAction, i128)| (p.0@, p.1 as int)),
                i == it.index(),
                skip@.len() == n,
                forall|j: int| 0 <= j < n ==> #[trigger] skip@[j] == is_superseded(all, j),
                action_views(out@) + survivors(all, i as int) == survivors(all, 0),
        {
            let (action, _) = p;
            assert(all[i as int].0 == action@);
            let ghost before = out@;
            if !skip[i] {
                out.push(action);
                assert(action_views(out@) =~= action_views(before).push(action@));
            }
            assert(action_views(out@) + survivors(all, i + 1) =~= survivors(all, 0));
            i += 1;
        }
        assert(survivors(all, n as int) =~= Seq::empty());
        assert(action_views(out@) =~= survivors(all, 0));
        out
    }

    /// Handles what happened to the queue: the updates that are to be done now, and whether to
    /// stop afterwards.
    ///
    /// Updates wait until none came for a while, too many wait, or the queue ends.
    pub fn run(&mut self, event: QueueEvent) -> (r: (Vec<UpdateAction>, bool))
        requires
            old(self).wf(),
        ensures
            final(self).wf(),
            final(self)@.len() < MAX_PENDING,
            final(self)@.len() < 10_000,
            event matches QueueEvent::Action(a, at) ==> (with_action(
                old(self)@,
                a@,
                at as int,
            ).len() < 10_000 ==> r.0@.len() == 0),
            r.1 == (event is Finished || event is Disconnected),
            event is Timeout || event is Action ==> !r.1,
            event is Finished || event is Disconnected ==> r.1,
            !(event is Action) ==> final(self)@.len() == 0,
            !(event is Action) && old(self)@.len() > 0 ==> r.0@.len() > 0,
            match event {
                QueueEvent::Action(a, at) => {
                    let all = with_action(old(self)@, a@, at as int);
                    if all.len() >= MAX_PENDING {
                        &&& final(self)@ == Seq::<PendingView>::empty()
                        &&& action_views(r.0@) == survivors(all, 0)
                    } else {
                        &&& final(self)@ == all
                        &&& r.0@.len() == 0
                    }
                },
                _ => {
                    &&& final(self)@ == Seq::<PendingView>::empty()
                    &&& action_views(r.0@) == survivors(old(self)@, 0)
                },
            },
    {
        proof {
            if self@.len() > 0 {
                every_update_is_done_or_covered(self@, 0, 0);
            }
        }
        match event {
            QueueEvent::Action(action, at) => {
                self.insert(action, at);
                if self.pending.len() >= MAX_PENDING {
                    (self.send_actions(), false)
                } else {
                    (Vec::new(), false)
                }
            },
            QueueEvent::Finished => (self.send_actions(), true),
            QueueEvent::Disconnected => (self.send_actions(), true),
            QueueEvent::Timeout => (self.send_actions(), false),
        }
    }
}

/// The path of an update is that of the folder that is listed, taken out or moved away.
pub proof fn updates_bear_their_folder(a: &UpdateAction, r: &str)
    requires
        call_ensures(UpdateAction::as_ref, (a,), r),
    ensures
        match a {
            UpdateAction::RefreshFolder(p) => r@ == p@,
            UpdateAction::RefreshFolderRecursive(p) => r@ == p@,
            UpdateAction::RemoveFolder(p) => r@ == p@,
            UpdateAction::RenameFolder { from, to: _ } => r@ == from@,
        },
        touches(a@, r@),
{
    under_is_transitive(r@, r@, r@);
}

} // verus!
