//! The shared data model: one deletable filesystem subtree per entry,
//! with its scanned size and its selection state.

use vstd::prelude::*;

verus! {

/// Entries smaller than this many bytes (10 MiB) count as "small": they are
/// hidden by the default visibility filter and never bulk-selected.
pub const SMALL_LIMIT: u64 = 10485760;

/// One candidate for deletion: a filesystem subtree.
#[derive(Clone, Debug)]
pub struct CleanEntry {
    /// Absolute path of the subtree.
    pub path: String,
    /// Human-readable label; not necessarily unique.
    pub description: String,
    /// Relevance weight in hundredths (100 = 1.0); informational only.
    pub score: u8,
    /// Total byte size, `None` until scanned.
    pub size: Option<u64>,
    /// Whether the user has marked the entry for deletion.
    pub selected: bool,
}

/// The mathematical image of a `CleanEntry`: strings as character sequences.
pub ghost struct EntryView {
    pub path: Seq<char>,
    pub description: Seq<char>,
    pub score: u8,
    pub size: Option<u64>,
    pub selected: bool,
}

impl View for CleanEntry {
    type V = EntryView;

    open spec fn view(&self) -> EntryView {
        EntryView {
            path: self.path@,
            description: self.description@,
            score: self.score,
            size: self.size,
            selected: self.selected,
        }
    }
}

impl CleanEntry {
    /// A fresh, unscanned, unselected candidate.
    pub fn new(path: String, description: String, score: u8) -> (r: CleanEntry)
        ensures
            r@ == (EntryView {
                path: path@,
                description: description@,
                score: score,
                size: None,
                selected: false,
            }),
    {
        CleanEntry { path, description, score, size: None, selected: false }
    }
}

/// The mathematical image of a list of entries.
pub open spec fn entry_views(s: Seq<CleanEntry>) -> Seq<EntryView> {
    s.map_values(|e: CleanEntry| e@)
}

/// Appending an entry appends its image.
pub proof fn lemma_entry_views_push(s: Seq<CleanEntry>, e: CleanEntry)
    ensures
        entry_views(s.push(e)) =~= entry_views(s).push(e@),
{
}

/// Removing an entry removes its image.
pub proof fn lemma_entry_views_remove(s: Seq<CleanEntry>, i: int)
    requires
        0 <= i < s.len(),
    ensures
        entry_views(s.remove(i)) =~= entry_views(s).remove(i),
{
}

/// Replacing an entry replaces its image.
pub proof fn lemma_entry_views_update(s: Seq<CleanEntry>, i: int, e: CleanEntry)
    requires
        0 <= i < s.len(),
    ensures
        entry_views(s.update(i, e)) =~= entry_views(s).update(i, e@),
{
}

/// The size an entry contributes to totals: its scanned size, or 0 if unscanned.
pub open spec fn size_of(e: EntryView) -> u64 {
    match e.size {
        Some(n) => n,
        None => 0,
    }
}

/// Sum of the sizes of every entry.
pub open spec fn sum_all(s: Seq<EntryView>) -> int
    decreases s.len(),
{
    if s.len() == 0 {
        0
    } else {
        sum_all(s.drop_last()) + size_of(s.last())
    }
}

/// Sum of the sizes of the selected entries.
pub open spec fn sum_selected(s: Seq<EntryView>) -> int
    decreases s.len(),
{
    if s.len() == 0 {
        0
    } else {
        sum_selected(s.drop_last()) + if s.last().selected {
            size_of(s.last()) as int
        } else {
            0
        }
    }
}

/// Number of selected entries.
pub open spec fn count_selected(s: Seq<EntryView>) -> int
    decreases s.len(),
{
    if s.len() == 0 {
        0
    } else {
        count_selected(s.drop_last()) + if s.last().selected {
            1int
        } else {
            0
        }
    }
}

/// The selected sum never exceeds the sum over all entries, and the selected
/// count never exceeds the length.
pub proof fn lemma_sums_bounded(s: Seq<EntryView>)
    ensures
        0 <= sum_selected(s) <= sum_all(s),
        0 <= count_selected(s) <= s.len(),
    decreases s.len(),
{
    if s.len() > 0 {
        lemma_sums_bounded(s.drop_last());
    }
}

/// When no entry is selected, the selected sum and count are zero.
pub proof fn lemma_none_selected(s: Seq<EntryView>)
    requires
        forall|i: int| 0 <= i < s.len() ==> !s[i].selected,
    ensures
        sum_selected(s) == 0,
        count_selected(s) == 0,
    decreases s.len(),
{
    if s.len() > 0 {
        lemma_none_selected(s.drop_last());
    }
}

/// How the selected sum and count change when one entry is replaced.
pub proof fn lemma_sums_update(s: Seq<EntryView>, i: int, e: EntryView)
    requires
        0 <= i < s.len(),
    ensures
        sum_selected(s.update(i, e)) == sum_selected(s)
            - (if s[i].selected { size_of(s[i]) as int } else { 0 })
            + (if e.selected { size_of(e) as int } else { 0 }),
        count_selected(s.update(i, e)) == count_selected(s)
            - (if s[i].selected { 1int } else { 0 })
            + (if e.selected { 1int } else { 0 }),
        sum_all(s.update(i, e)) == sum_all(s) - size_of(s[i]) + size_of(e),
    decreases s.len(),
{
    let s2 = s.update(i, e);
    if i == s.len() - 1 {
        assert(s2.drop_last() =~= s.drop_last());
    } else {
        assert(s2.drop_last() =~= s.drop_last().update(i, e));
        assert(s2.last() == s.last());
        lemma_sums_update(s.drop_last(), i, e);
    }
}

/// A prefix's size total never exceeds the whole list's.
pub proof fn lemma_sum_all_take_le(s: Seq<EntryView>, k: int)
    requires
        0 <= k <= s.len(),
    ensures
        sum_all(s.take(k)) <= sum_all(s),
    decreases s.len(),
{
    if k == s.len() {
        assert(s.take(k) =~= s);
    } else {
        assert(s.take(k) =~= s.drop_last().take(k));
        lemma_sum_all_take_le(s.drop_last(), k);
    }
}

/// Lists whose entries have the same sizes position by position have the
/// same size total.
pub proof fn lemma_sum_all_same_sizes(s1: Seq<EntryView>, s2: Seq<EntryView>)
    requires
        s1.len() == s2.len(),
        forall|i: int| 0 <= i < s1.len() ==> size_of(#[trigger] s1[i]) == size_of(#[trigger] s2[i]),
    ensures
        sum_all(s1) == sum_all(s2),
    decreases s1.len(),
{
    if s1.len() > 0 {
        assert(forall|i: int|
            0 <= i < s1.len() - 1 ==> #[trigger] s1.drop_last()[i] == s1[i] && #[trigger] s2.drop_last()[i] == s2[i]);
        lemma_sum_all_same_sizes(s1.drop_last(), s2.drop_last());
    }
}

/// A selected entry's size is no more than the selected sum, and the selected
/// count is then at least one.
pub proof fn lemma_selected_member_bound(s: Seq<EntryView>, i: int)
    requires
        0 <= i < s.len(),
        s[i].selected,
    ensures
        size_of(s[i]) <= sum_selected(s),
        count_selected(s) >= 1,
    decreases s.len(),
{
    lemma_sums_bounded(s);
    if i == s.len() - 1 {
        lemma_sums_bounded(s.drop_last());
    } else {
        lemma_selected_member_bound(s.drop_last(), i);
    }
}

} // verus!
