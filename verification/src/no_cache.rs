//! Directory entries in the order of their age.

use crate::audio_meta;
use crate::paths;
use core::cmp::Ordering;
use vstd::prelude::*;

verus! {

/// A directory and when it was created, in nanoseconds from the start of the Unix epoch.
///
/// The order is reversed, so that the oldest entry is on top of a heap.
#[derive(Debug)]
pub struct DirEntry {
    pub path: String,
    pub created: i128,
}

/// The order of entries: the later one first, and those of the same time by path.
pub open spec fn age_order(a: &DirEntry, b: &DirEntry) -> Ordering {
    if a.created > b.created {
        Ordering::Less
    } else if a.created < b.created {
        Ordering::Greater
    } else {
        audio_meta::path_order(a.path@, b.path@)
    }
}

impl DirEntry {
    /// The order of two entries.
    pub fn cmp(&self, other: &Self) -> (r: Ordering)
        ensures
            r == age_order(self, other),
    {
        if self.created > other.created {
            Ordering::Less
        } else if self.created < other.created {
            Ordering::Greater
        } else {
            audio_meta::compare_paths(self.path.as_str(), other.path.as_str())
        }
    }
}

impl PartialEq for DirEntry {
    fn eq(&self, other: &Self) -> (r: bool) {
        self.created == other.created && paths::same_path(self.path.as_str(), other.path.as_str())
    }
}

impl vstd::std_specs::cmp::PartialEqSpecImpl for DirEntry {
    open spec fn obeys_eq_spec() -> bool {
        true
    }

    open spec fn eq_spec(&self, other: &Self) -> bool {
        self.created == other.created && paths::components(self.path@) == paths::components(
            other.path@,
        )
    }
}

impl PartialOrd for DirEntry {
    fn partial_cmp(&self, other: &Self) -> (r: Option<Ordering>) {
        Some(DirEntry::cmp(self, other))
    }
}

impl vstd::std_specs::cmp::PartialOrdSpecImpl for DirEntry {
    open spec fn obeys_partial_cmp_spec() -> bool {
        true
    }

    open spec fn partial_cmp_spec(&self, other: &Self) -> Option<Ordering> {
        Some(age_order(self, other))
    }
}

/// The order of entries is total: entries of equal rank are equal, swapping two reverses their
/// order, and it is transitive.
pub proof fn age_order_is_total(a: &DirEntry, b: &DirEntry, c: &DirEntry)
    ensures
        age_order(a, b) == Ordering::Equal <==> a.created == b.created && paths::components(a.path@)
            == paths::components(b.path@),
        age_order(b, a) == audio_meta::reversed(age_order(a, b)),
        age_order(a, b) == Ordering::Less && age_order(b, c) == Ordering::Less ==> age_order(a, c)
            == Ordering::Less,
{
    paths::path_before_is_total(a.path@, b.path@);
    if paths::path_before(a.path@, b.path@) {
        paths::path_before_is_asymmetric(a.path@, b.path@);
    }
    if paths::path_before(b.path@, a.path@) {
        paths::path_before_is_asymmetric(b.path@, a.path@);
    }
    if paths::path_before(a.path@, b.path@) && paths::path_before(b.path@, c.path@) {
        paths::path_before_is_transitive(a.path@, b.path@, c.path@);
    }
}

/// Of two entries the one created later comes first; of two created at once, the one whose path
/// comes first.
pub proof fn later_entries_come_first(a: &DirEntry, b: &DirEntry)
    ensures
        a.created > b.created ==> age_order(a, b) == Ordering::Less && age_order(b, a)
            == Ordering::Greater,
        a.created == b.created && paths::path_before(a.path@, b.path@) ==> age_order(a, b)
            == Ordering::Less,
{
}

} // verus!
