//! The staleness policy: flag a build-output directory as an abandoned
//! artifact when nothing inside it has seen activity within the threshold.
//!
//! The walk over the tree happens outside the library; it reports, for the
//! directory itself and for every entry found under it, the modified,
//! accessed, and created timestamps (in seconds since the epoch, with any
//! unreadable timestamp reported as 0, the epoch). This module folds those
//! reports into the most recent activity and applies the threshold.

use vstd::prelude::*;
use vstd::string::StringExecFns;
use crate::entry::{CleanEntry, EntryView};

verus! {

/// The three activity timestamps of one filesystem entry, in whole seconds
/// since the epoch.
#[derive(Clone, Copy, Debug, PartialEq, Eq, Structural)]
pub struct ActivityTimes {
    pub modified: u64,
    pub accessed: u64,
    pub created: u64,
}

/// The later of two timestamps.
pub open spec fn later(a: u64, b: u64) -> u64 {
    if a >= b {
        a
    } else {
        b
    }
}

/// Componentwise maximum of two activity reports.
pub open spec fn join_times(a: ActivityTimes, b: ActivityTimes) -> ActivityTimes {
    ActivityTimes {
        modified: later(a.modified, b.modified),
        accessed: later(a.accessed, b.accessed),
        created: later(a.created, b.created),
    }
}

/// The most recent activity anywhere in a subtree: the componentwise maximum
/// over the directory's own timestamps and every contained entry's.
pub open spec fn max_activity_spec(base: ActivityTimes, children: Seq<ActivityTimes>) -> ActivityTimes
    decreases children.len(),
{
    if children.len() == 0 {
        base
    } else {
        join_times(max_activity_spec(base, children.drop_last()), children.last())
    }
}

/// How long ago a timestamp lies: zero for a timestamp in the future
/// (the clock may have been set back).
pub open spec fn age_of(now: u64, t: u64) -> int {
    if t <= now {
        now - t
    } else {
        0
    }
}

/// A subtree is stale when any one of the three ages — since last
/// modification, last access, or creation — strictly exceeds the threshold.
/// One old signal suffices; this is deliberately lenient.
pub open spec fn stale_spec(now: u64, t: ActivityTimes, threshold: u64) -> bool {
    age_of(now, t.modified) > threshold || age_of(now, t.accessed) > threshold || age_of(
        now,
        t.created,
    ) > threshold
}

/// Fold the walk's reports into the most recent activity in the subtree.
pub fn max_activity(base: ActivityTimes, children: &Vec<ActivityTimes>) -> (r: ActivityTimes)
    ensures
        r == max_activity_spec(base, children@),
{
    let mut acc = base;
    let mut i: usize = 0;
    while i < children.len()
        invariant
            i <= children.len(),
            acc == max_activity_spec(base, children@.take(i as int)),
        decreases children.len() - i,
    {
        proof {
            assert(children@.take(i + 1).drop_last() =~= children@.take(i as int));
        }
        let c = children[i];
        acc = ActivityTimes {
            modified: if acc.modified >= c.modified { acc.modified } else { c.modified },
            accessed: if acc.accessed >= c.accessed { acc.accessed } else { c.accessed },
            created: if acc.created >= c.created { acc.created } else { c.created },
        };
        i += 1;
    }
    proof {
        assert(children@.take(children@.len() as int) =~= children@);
    }
    acc
}

/// Whether a subtree with most-recent activity `t` is stale at time `now`.
pub fn is_stale(now: u64, t: ActivityTimes, threshold: u64) -> (r: bool)
    ensures
        r == stale_spec(now, t, threshold),
{
    let modified_age: u64 = if t.modified <= now { now - t.modified } else { 0 };
    let accessed_age: u64 = if t.accessed <= now { now - t.accessed } else { 0 };
    let created_age: u64 = if t.created <= now { now - t.created } else { 0 };
    modified_age > threshold || accessed_age > threshold || created_age > threshold
}

/// A timestamp exactly at the threshold is not stale — the comparison is
/// strict — while one second past it is.
pub proof fn lemma_staleness_boundary(now: u64, t: ActivityTimes, threshold: u64)
    ensures
        age_of(now, t.modified) == threshold && age_of(now, t.accessed) == threshold && age_of(
            now,
            t.created,
        ) == threshold ==> !stale_spec(now, t, threshold),
        age_of(now, t.modified) == threshold + 1 || age_of(now, t.accessed) == threshold + 1
            || age_of(now, t.created) == threshold + 1 ==> stale_spec(now, t, threshold),
{
}

/// Whether a directory name is one of the target build-output names.
pub fn name_matches(targets: &Vec<String>, name: &String) -> (r: bool)
    ensures
        r == exists|j: int| 0 <= j < targets@.len() && targets@[j]@ == name@,
{
    let mut i: usize = 0;
    while i < targets.len()
        invariant
            i <= targets.len(),
            forall|j: int| 0 <= j < i ==> targets@[j]@ != name@,
        decreases targets.len() - i,
    {
        if targets[i].eq(name) {
            return true;
        }
        i += 1;
    }
    false
}

/// The description of a stale candidate: the parent directory's name, a
/// label, and the matched folder name.
pub open spec fn stale_description(parent_name: Seq<char>, dir_name: Seq<char>) -> Seq<char> {
    parent_name + " 中长时间不用的 "@ + dir_name
}

/// Judge one matched directory: fold the walk's timestamp reports, apply the
/// threshold, and return the candidate entry exactly when the subtree is
/// stale.
pub fn stale_candidate(
    path: &String,
    parent_name: &String,
    dir_name: &String,
    now: u64,
    base: ActivityTimes,
    children: &Vec<ActivityTimes>,
    threshold: u64,
) -> (r: Option<CleanEntry>)
    ensures
        r is Some <==> stale_spec(now, max_activity_spec(base, children@), threshold),
        r is Some ==> r->Some_0@ == (EntryView {
            path: path@,
            description: stale_description(parent_name@, dir_name@),
            score: 80,
            size: None,
            selected: false,
        }),
{
    let latest = max_activity(base, children);
    if is_stale(now, latest, threshold) {
        let mut description = parent_name.clone();
        description.append(" 中长时间不用的 ");
        description.append(dir_name.as_str());
        Some(CleanEntry::new(path.clone(), description, 80))
    } else {
        None
    }
}

} // verus!
