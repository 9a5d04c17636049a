//! The interactive selection engine: a filterable, paginated, navigable list
//! of candidate entries with live aggregate statistics.
//!
//! Every operation is specified as a pure transition on the engine's
//! mathematical view, and the aggregate invariant — the running totals equal
//! the sum and count over exactly the selected entries — is preserved by
//! every one of them.

use vstd::prelude::*;
use crate::entry::{
    count_selected, entry_views, lemma_entry_views_update, lemma_none_selected,
    lemma_selected_member_bound, lemma_sum_all_same_sizes, lemma_sum_all_take_le,
    lemma_sums_bounded, lemma_sums_update, size_of, sum_all, sum_selected, CleanEntry, EntryView,
    SMALL_LIMIT,
};
use vstd::pervasive::VecAdditionalExecFns;

verus! {

/// The engine's state: the underlying list, the cursor and scroll position
/// within the visible set, the terminal dimensions, the live aggregates, and
/// the small-file visibility filter.
pub struct UIState {
    pub entries: Vec<CleanEntry>,
    pub current_index: usize,
    pub scroll_offset: usize,
    pub terminal_height: u16,
    pub terminal_width: u16,
    pub total_selected_size: u64,
    pub selected_count: usize,
    pub show_small_files: bool,
}

/// The engine's mathematical image.
pub ghost struct UiView {
    pub entries: Seq<EntryView>,
    pub current_index: int,
    pub scroll_offset: int,
    pub terminal_height: int,
    pub terminal_width: int,
    pub total_selected_size: int,
    pub selected_count: int,
    pub show_small_files: bool,
}

impl View for UIState {
    type V = UiView;

    open spec fn view(&self) -> UiView {
        UiView {
            entries: entry_views(self.entries@),
            current_index: self.current_index as int,
            scroll_offset: self.scroll_offset as int,
            terminal_height: self.terminal_height as int,
            terminal_width: self.terminal_width as int,
            total_selected_size: self.total_selected_size as int,
            selected_count: self.selected_count as int,
            show_small_files: self.show_small_files,
        }
    }
}

impl UiView {
    /// The engine's invariant: the aggregates match the selected entries,
    /// the sizes sum within machine range, and every entry has been scanned
    /// to a positive size.
    pub open spec fn wf(self) -> bool {
        &&& self.total_selected_size == sum_selected(self.entries)
        &&& self.selected_count == count_selected(self.entries)
        &&& sum_all(self.entries) <= u64::MAX
        &&& self.entries.len() <= usize::MAX
        &&& forall|i: int|
            0 <= i < self.entries.len() ==> (#[trigger] self.entries[i]).size is Some && size_of(
                self.entries[i],
            ) > 0
    }
}

/// Whether an entry shows under the filter: always when small files are
/// shown, otherwise only from 10 MiB up.
pub open spec fn is_visible(e: EntryView, show_small: bool) -> bool {
    show_small || size_of(e) >= SMALL_LIMIT
}

/// The indices of the visible entries, in list order.
pub open spec fn visible_idxs(entries: Seq<EntryView>, show_small: bool) -> Seq<usize>
    decreases entries.len(),
{
    if entries.len() == 0 {
        Seq::empty()
    } else {
        visible_idxs(entries.drop_last(), show_small) + if is_visible(entries.last(), show_small) {
            seq![(entries.len() - 1) as usize]
        } else {
            Seq::empty()
        }
    }
}

/// No more indices are visible than there are entries.
pub proof fn lemma_visible_idxs_len(entries: Seq<EntryView>, show_small: bool)
    ensures
        visible_idxs(entries, show_small).len() <= entries.len(),
    decreases entries.len(),
{
    if entries.len() > 0 {
        lemma_visible_idxs_len(entries.drop_last(), show_small);
    }
}

/// What the visible index list holds: exactly the indices of the visible
/// entries, each once, in increasing order.
pub proof fn lemma_visible_idxs_char(entries: Seq<EntryView>, show_small: bool)
    requires
        entries.len() <= usize::MAX,
    ensures
        forall|j: int|
            0 <= j < visible_idxs(entries, show_small).len() ==> (
            #[trigger] visible_idxs(entries, show_small)[j]) < entries.len() && is_visible(
                entries[visible_idxs(entries, show_small)[j] as int],
                show_small,
            ),
        forall|j1: int, j2: int|
            0 <= j1 < j2 < visible_idxs(entries, show_small).len() ==> (
            #[trigger] visible_idxs(entries, show_small)[j1]) < (#[trigger] visible_idxs(
                entries,
                show_small,
            )[j2]),
        forall|u: usize|
            u < entries.len() && is_visible(entries[u as int], show_small)
                ==> #[trigger] visible_idxs(entries, show_small).contains(u),
    decreases entries.len(),
{
    if entries.len() > 0 {
        let prefix = entries.drop_last();
        let vp = visible_idxs(prefix, show_small);
        let v = visible_idxs(entries, show_small);
        lemma_visible_idxs_char(prefix, show_small);
        assert forall|j: int| 0 <= j < v.len() implies (#[trigger] v[j]) < entries.len()
            && is_visible(entries[v[j] as int], show_small) by {
            if j < vp.len() {
                assert(v[j] == vp[j]);
                assert(prefix[vp[j] as int] == entries[vp[j] as int]);
            } else {
                assert(v[j] == (entries.len() - 1) as usize);
            }
        }
        assert forall|j1: int, j2: int| 0 <= j1 < j2 < v.len() implies (#[trigger] v[j1]) < (
        #[trigger] v[j2]) by {
            if j2 < vp.len() {
                assert(v[j1] == vp[j1]);
                assert(v[j2] == vp[j2]);
            } else {
                assert(v[j1] == vp[j1]);
                assert(vp[j1] < prefix.len());
                assert(v[j2] == (entries.len() - 1) as usize);
            }
        }
        assert forall|u: usize|
            u < entries.len() && is_visible(entries[u as int], show_small) implies #[trigger] v
            .contains(u) by {
            if (u as int) < entries.len() - 1 {
                assert(prefix[u as int] == entries[u as int]);
                assert(vp.contains(u));
                let j = choose|j: int| 0 <= j < vp.len() && vp[j] == u;
                assert(v[j] == u);
            } else {
                assert(v[v.len() - 1] == u);
            }
        }
    }
}

/// What a list must look like before the engine takes it over: every entry
/// scanned to a positive size, nothing selected yet, and the sizes summing
/// within machine range.
pub open spec fn ready_entries(s: Seq<EntryView>) -> bool {
    &&& forall|i: int| 0 <= i < s.len() ==> !(#[trigger] s[i]).selected
    &&& forall|i: int|
        0 <= i < s.len() ==> (#[trigger] s[i]).size is Some && size_of(s[i]) > 0
    &&& sum_all(s) <= u64::MAX
}

/// The indices of the selected entries, in list order, whether or not they
/// are visible under the filter.
pub open spec fn selected_idxs(entries: Seq<EntryView>) -> Seq<usize>
    decreases entries.len(),
{
    if entries.len() == 0 {
        Seq::empty()
    } else {
        selected_idxs(entries.drop_last()) + if entries.last().selected {
            seq![(entries.len() - 1) as usize]
        } else {
            Seq::empty()
        }
    }
}

impl UIState {
    /// Wrap a prepared candidate list for interaction: cursor and viewport
    /// at the top, nothing selected, small files hidden.
    pub fn new(entries: Vec<CleanEntry>, width: u16, height: u16) -> (r: UIState)
        requires
            ready_entries(entry_views(entries@)),
        ensures
            r@ == (UiView {
                entries: entry_views(entries@),
                current_index: 0,
                scroll_offset: 0,
                terminal_height: height as int,
                terminal_width: width as int,
                total_selected_size: 0,
                selected_count: 0,
                show_small_files: false,
            }),
            r@.wf(),
    {
        proof {
            lemma_none_selected(entry_views(entries@));
            assert(entries.len() == entries@.len());
        }
        UIState {
            entries,
            current_index: 0,
            scroll_offset: 0,
            terminal_height: height,
            terminal_width: width,
            total_selected_size: 0,
            selected_count: 0,
            show_small_files: false,
        }
    }

    /// The indices of the selected entries, in list order.
    pub fn get_selected_entries(&self) -> (r: Vec<usize>)
        ensures
            r@ == selected_idxs(self@.entries),
    {
        let mut r: Vec<usize> = Vec::new();
        let n = self.entries.len();
        let mut i: usize = 0;
        while i < n
            invariant
                i <= n,
                n == self.entries@.len(),
                r@ == selected_idxs(self@.entries.take(i as int)),
            decreases n - i,
        {
            proof {
                assert(self@.entries.take(i + 1).drop_last() =~= self@.entries.take(i as int));
                assert(self@.entries.take(i + 1).last() == self@.entries[i as int]);
            }
            if self.entries[i].selected {
                r.push(i);
                proof {
                    assert(r@ =~= selected_idxs(self@.entries.take(i + 1)));
                }
            } else {
                proof {
                    assert(r@ =~= selected_idxs(self@.entries.take(i + 1)));
                }
            }
            i += 1;
        }
        proof {
            assert(self@.entries.take(n as int) =~= self@.entries);
        }
        r
    }

    /// Rows available for the list itself: the terminal height less the
    /// header and status lines.
    pub open spec fn visible_height_of(v: UiView) -> int {
        if v.terminal_height >= 4 {
            v.terminal_height - 4
        } else {
            0
        }
    }

    /// The number of list rows the terminal can show.
    pub fn visible_height(&self) -> (h: usize)
        ensures
            h == Self::visible_height_of(self@),
    {
        if self.terminal_height >= 4 {
            (self.terminal_height - 4) as usize
        } else {
            0
        }
    }

    /// The indices of the entries that show under the current filter, in
    /// list order.
    pub fn get_visible_entries(&self) -> (r: Vec<usize>)
        ensures
            r@ == visible_idxs(self@.entries, self@.show_small_files),
    {
        let mut r: Vec<usize> = Vec::new();
        let n = self.entries.len();
        let mut i: usize = 0;
        while i < n
            invariant
                i <= n,
                n == self.entries@.len(),
                r@ == visible_idxs(self@.entries.take(i as int), self@.show_small_files),
            decreases n - i,
        {
            proof {
                assert(self@.entries.take(i + 1).drop_last() =~= self@.entries.take(i as int));
                assert(self@.entries.take(i + 1).last() == self@.entries[i as int]);
            }
            let big = match self.entries[i].size {
                Some(s) => s >= SMALL_LIMIT,
                None => false,
            };
            if self.show_small_files || big {
                r.push(i);
                proof {
                    assert(r@ =~= visible_idxs(self@.entries.take(i + 1), self@.show_small_files));
                }
            } else {
                proof {
                    assert(r@ =~= visible_idxs(self@.entries.take(i + 1), self@.show_small_files));
                }
            }
            i += 1;
        }
        proof {
            assert(self@.entries.take(n as int) =~= self@.entries);
        }
        r
    }

    /// Moving up: the cursor steps back one visible row, and the viewport
    /// scrolls up just enough to keep it on screen.
    pub open spec fn move_up_spec(v: UiView) -> UiView {
        if v.current_index > 0 {
            let c = v.current_index - 1;
            UiView {
                current_index: c,
                scroll_offset: if c < v.scroll_offset {
                    c
                } else {
                    v.scroll_offset
                },
                ..v
            }
        } else {
            v
        }
    }

    /// Move the cursor up one visible row.
    pub fn move_up(&mut self)
        ensures
            final(self)@ == Self::move_up_spec(old(self)@),
    {
        if self.current_index > 0 {
            self.current_index -= 1;
            if self.current_index < self.scroll_offset {
                self.scroll_offset = self.current_index;
            }
        }
    }

    /// Moving down: the cursor steps forward one visible row, and the
    /// viewport scrolls down just enough to keep it on screen.
    pub open spec fn move_down_spec(v: UiView) -> UiView {
        let n = visible_idxs(v.entries, v.show_small_files).len();
        if v.current_index < n - 1 {
            let c = v.current_index + 1;
            let h = Self::visible_height_of(v);
            UiView {
                current_index: c,
                scroll_offset: if c >= v.scroll_offset + h {
                    c - h + 1
                } else {
                    v.scroll_offset
                },
                ..v
            }
        } else {
            v
        }
    }

    /// Move the cursor down one visible row.
    pub fn move_down(&mut self)
        ensures
            final(self)@ == Self::move_down_spec(old(self)@),
    {
        let vis = self.get_visible_entries();
        if self.current_index < vis.len().saturating_sub(1) {
            self.current_index += 1;
            let h = self.visible_height();
            if self.current_index >= self.scroll_offset.saturating_add(h) {
                self.scroll_offset = self.current_index - h + 1;
            }
        }
    }

    /// Paging up moves cursor and viewport a full page towards the top,
    /// stopping at the first row.
    pub open spec fn page_up_spec(v: UiView) -> UiView {
        let h = Self::visible_height_of(v);
        UiView {
            current_index: if v.current_index >= h {
                v.current_index - h
            } else {
                0
            },
            scroll_offset: if v.scroll_offset >= h {
                v.scroll_offset - h
            } else {
                0
            },
            ..v
        }
    }

    /// Move cursor and viewport one page up.
    pub fn page_up(&mut self)
        ensures
            final(self)@ == Self::page_up_spec(old(self)@),
    {
        let h = self.visible_height();
        self.current_index = self.current_index.saturating_sub(h);
        self.scroll_offset = self.scroll_offset.saturating_sub(h);
    }

    /// Paging down moves the cursor a full page towards the last visible
    /// row, clamped to it, and scrolls just enough to keep it on screen.
    pub open spec fn page_down_spec(v: UiView) -> UiView {
        let n = visible_idxs(v.entries, v.show_small_files).len();
        let h = Self::visible_height_of(v);
        let maxi = if n > 0 {
            n - 1
        } else {
            0
        };
        let c = if v.current_index + h <= maxi {
            v.current_index + h
        } else {
            maxi
        };
        UiView {
            current_index: c,
            scroll_offset: if c >= v.scroll_offset + h {
                c - h + 1
            } else {
                v.scroll_offset
            },
            ..v
        }
    }

    /// Move cursor and viewport one page down.
    pub fn page_down(&mut self)
        ensures
            final(self)@ == Self::page_down_spec(old(self)@),
    {
        let h = self.visible_height();
        let vis = self.get_visible_entries();
        let maxi = vis.len().saturating_sub(1);
        let stepped = self.current_index.saturating_add(h);
        self.current_index = if stepped <= maxi {
            stepped
        } else {
            maxi
        };
        if self.current_index >= self.scroll_offset.saturating_add(h) {
            self.scroll_offset = self.current_index - h + 1;
        }
    }

    /// Toggling flips the selection flag of the entry under the cursor —
    /// mapped from its visible position to its place in the underlying list
    /// — and adjusts the two aggregates by exactly that entry's size.
    pub open spec fn toggle_spec(v: UiView) -> UiView {
        let vis = visible_idxs(v.entries, v.show_small_files);
        if 0 <= v.current_index < vis.len() {
            let k = vis[v.current_index] as int;
            let e = v.entries[k];
            let e2 = EntryView { selected: !e.selected, ..e };
            UiView {
                entries: v.entries.update(k, e2),
                total_selected_size: if e2.selected {
                    v.total_selected_size + size_of(e)
                } else {
                    v.total_selected_size - size_of(e)
                },
                selected_count: if e2.selected {
                    v.selected_count + 1
                } else {
                    v.selected_count - 1
                },
                ..v
            }
        } else {
            v
        }
    }

    /// Flip the selection of the entry under the cursor and keep the
    /// aggregates exact.
    pub fn toggle_current_selection(&mut self)
        requires
            old(self)@.wf(),
        ensures
            final(self)@ == Self::toggle_spec(old(self)@),
            final(self)@.wf(),
    {
        let vis = self.get_visible_entries();
        proof {
            assert(self.entries.len() == self.entries@.len());
            lemma_visible_idxs_char(self@.entries, self@.show_small_files);
        }
        if self.current_index < vis.len() {
            let k = vis[self.current_index];
            let was_selected = self.entries[k].selected;
            let size = self.entries[k].size;
            let new_e = CleanEntry {
                path: self.entries[k].path.clone(),
                description: self.entries[k].description.clone(),
                score: self.entries[k].score,
                size: self.entries[k].size,
                selected: !was_selected,
            };
            proof {
                lemma_entry_views_update(self.entries@, k as int, new_e);
                lemma_sums_update(self@.entries, k as int, new_e@);
            }
            self.entries.set(k, new_e);
            if let Some(sz) = size {
                if !was_selected {
                    proof {
                        lemma_sums_bounded(self@.entries);
                    }
                    self.total_selected_size += sz;
                    self.selected_count += 1;
                } else {
                    proof {
                        lemma_selected_member_bound(old(self)@.entries, k as int);
                    }
                    self.total_selected_size -= sz;
                    self.selected_count -= 1;
                }
            }
            proof {
                assert forall|i: int| 0 <= i < self@.entries.len() implies (
                #[trigger] self@.entries[i]).size is Some && size_of(self@.entries[i]) > 0 by {
                    if i != k as int {
                        assert(self@.entries[i] == old(self)@.entries[i]);
                    }
                }
            }
        }
    }

    /// Selecting all: every entry from 10 MiB up is selected, every smaller
    /// one deselected — small files are never bulk-selected — and the
    /// aggregates are recomputed from scratch over the new selection.
    pub open spec fn select_all_spec(v: UiView) -> UiView {
        let es = Seq::new(
            v.entries.len(),
            |i: int| EntryView { selected: size_of(v.entries[i]) >= SMALL_LIMIT, ..v.entries[i] },
        );
        UiView {
            entries: es,
            total_selected_size: sum_selected(es),
            selected_count: count_selected(es),
            ..v
        }
    }

    /// Select every entry of at least 10 MiB and deselect the rest.
    pub fn select_all(&mut self)
        requires
            old(self)@.wf(),
        ensures
            final(self)@ == Self::select_all_spec(old(self)@),
            final(self)@.wf(),
    {
        self.total_selected_size = 0;
        self.selected_count = 0;
        let n = self.entries.len();
        let mut i: usize = 0;
        while i < n
            invariant
                i <= n,
                n == self.entries@.len(),
                n == old(self)@.entries.len(),
                self.current_index == old(self).current_index,
                self.scroll_offset == old(self).scroll_offset,
                self.terminal_height == old(self).terminal_height,
                self.terminal_width == old(self).terminal_width,
                self.show_small_files == old(self).show_small_files,
                old(self)@.wf(),
                forall|j: int|
                    0 <= j < i ==> #[trigger] self@.entries[j] == (EntryView {
                        selected: size_of(old(self)@.entries[j]) >= SMALL_LIMIT,
                        ..old(self)@.entries[j]
                    }),
                forall|j: int| i <= j < n ==> #[trigger] self@.entries[j] == old(self)@.entries[j],
                self.total_selected_size == sum_selected(self@.entries.take(i as int)),
                self.selected_count == count_selected(self@.entries.take(i as int)),
                self.total_selected_size <= sum_all(old(self)@.entries.take(i as int)),
            decreases n - i,
        {
            let ghost before = self@.entries;
            let big = match self.entries[i].size {
                Some(s) => s >= SMALL_LIMIT,
                None => false,
            };
            let size = self.entries[i].size;
            let new_e = CleanEntry {
                path: self.entries[i].path.clone(),
                description: self.entries[i].description.clone(),
                score: self.entries[i].score,
                size: self.entries[i].size,
                selected: big,
            };
            proof {
                assert(before[i as int] == old(self)@.entries[i as int]);
                assert(new_e@ == (EntryView { selected: big, ..before[i as int] }));
                assert(big == (size_of(old(self)@.entries[i as int]) >= SMALL_LIMIT));
                lemma_entry_views_update(self.entries@, i as int, new_e);
            }
            self.entries.set(i, new_e);
            proof {
                assert(self@.entries.take(i as int) =~= before.take(i as int));
                assert(self@.entries.take(i + 1).drop_last() =~= self@.entries.take(i as int));
                assert(self@.entries.take(i + 1).last() == new_e@);
                assert(old(self)@.entries.take(i + 1).drop_last() =~= old(self)@.entries.take(
                    i as int,
                ));
                assert(old(self)@.entries.take(i + 1).last() == old(self)@.entries[i as int]);
                lemma_sum_all_take_le(old(self)@.entries, i + 1);
            }
            if big {
                if let Some(sz) = size {
                    proof {
                        assert(sz == size_of(old(self)@.entries[i as int]));
                        lemma_sums_bounded(self@.entries.take(i as int));
                    }
                    self.total_selected_size += sz;
                    self.selected_count += 1;
                }
            }
            i += 1;
        }
        proof {
            let es = Self::select_all_spec(old(self)@).entries;
            assert(self@.entries =~= es);
            assert(self@.entries.take(n as int) =~= self@.entries);
            lemma_sum_all_same_sizes(es, old(self)@.entries);
        }
    }

    /// Deselecting all clears every flag and zeroes the aggregates.
    pub open spec fn deselect_all_spec(v: UiView) -> UiView {
        UiView {
            entries: Seq::new(
                v.entries.len(),
                |i: int| EntryView { selected: false, ..v.entries[i] },
            ),
            total_selected_size: 0,
            selected_count: 0,
            ..v
        }
    }

    /// Clear every selection flag and zero the aggregates.
    pub fn deselect_all(&mut self)
        requires
            old(self)@.wf(),
        ensures
            final(self)@ == Self::deselect_all_spec(old(self)@),
            final(self)@.wf(),
    {
        let n = self.entries.len();
        let mut i: usize = 0;
        while i < n
            invariant
                i <= n,
                n == self.entries@.len(),
                n == old(self)@.entries.len(),
                self.current_index == old(self).current_index,
                self.scroll_offset == old(self).scroll_offset,
                self.terminal_height == old(self).terminal_height,
                self.terminal_width == old(self).terminal_width,
                self.show_small_files == old(self).show_small_files,
                self.total_selected_size == old(self).total_selected_size,
                self.selected_count == old(self).selected_count,
                old(self)@.wf(),
                forall|j: int|
                    0 <= j < i ==> #[trigger] self@.entries[j] == (EntryView {
                        selected: false,
                        ..old(self)@.entries[j]
                    }),
                forall|j: int| i <= j < n ==> #[trigger] self@.entries[j] == old(self)@.entries[j],
            decreases n - i,
        {
            let ghost before = self@.entries;
            let new_e = CleanEntry {
                path: self.entries[i].path.clone(),
                description: self.entries[i].description.clone(),
                score: self.entries[i].score,
                size: self.entries[i].size,
                selected: false,
            };
            proof {
                assert(before[i as int] == old(self)@.entries[i as int]);
                assert(new_e@ == (EntryView { selected: false, ..before[i as int] }));
                lemma_entry_views_update(self.entries@, i as int, new_e);
            }
            self.entries.set(i, new_e);
            i += 1;
        }
        proof {
            assert(forall|j: int|
                0 <= j < n ==> #[trigger] self@.entries[j] == (EntryView {
                    selected: false,
                    ..old(self)@.entries[j]
                }));
        }
        self.total_selected_size = 0;
        self.selected_count = 0;
        proof {
            let es = Self::deselect_all_spec(old(self)@).entries;
            assert forall|j: int| 0 <= j < n implies self@.entries[j] == es[j] by {
                assert(es[j] == (EntryView { selected: false, ..old(self)@.entries[j] }));
            }
            assert(self@.entries =~= es);
            lemma_none_selected(self@.entries);
            lemma_sum_all_same_sizes(es, old(self)@.entries);
        }
    }

    /// Toggling the filter flips it and resets cursor and viewport to the
    /// top.
    pub open spec fn toggle_small_spec(v: UiView) -> UiView {
        UiView { show_small_files: !v.show_small_files, current_index: 0, scroll_offset: 0, ..v }
    }

    /// Flip the small-file visibility filter.
    pub fn toggle_small_files_display(&mut self)
        ensures
            final(self)@ == Self::toggle_small_spec(old(self)@),
    {
        self.show_small_files = !self.show_small_files;
        self.current_index = 0;
        self.scroll_offset = 0;
    }

    /// A resize only updates the terminal dimensions.
    pub open spec fn resize_spec(v: UiView, width: u16, height: u16) -> UiView {
        UiView { terminal_width: width as int, terminal_height: height as int, ..v }
    }

    /// How one event transforms the engine's state.
    pub open spec fn step_spec(v: UiView, ev: UiEvent) -> UiView {
        match ev {
            UiEvent::Up => Self::move_up_spec(v),
            UiEvent::Down => Self::move_down_spec(v),
            UiEvent::PageUp => Self::page_up_spec(v),
            UiEvent::PageDown => Self::page_down_spec(v),
            UiEvent::ToggleSelect => Self::toggle_spec(v),
            UiEvent::SelectAll => Self::select_all_spec(v),
            UiEvent::DeselectAll => Self::deselect_all_spec(v),
            UiEvent::ToggleSmall => Self::toggle_small_spec(v),
            UiEvent::Confirm => v,
            UiEvent::Quit => v,
            UiEvent::Resize(w, h) => Self::resize_spec(v, w, h),
            UiEvent::Other => v,
        }
    }

    /// What the loop does next: quit on the quit key, hand over to the
    /// confirmation step on confirm — but only when something is selected —
    /// and otherwise keep going.
    pub open spec fn action_spec(v: UiView, ev: UiEvent) -> UiAction {
        match ev {
            UiEvent::Confirm => if count_selected(v.entries) > 0 {
                UiAction::Confirm
            } else {
                UiAction::Continue
            },
            UiEvent::Quit => UiAction::Quit,
            _ => UiAction::Continue,
        }
    }

    /// Dispatch one input event and report what the loop does next.
    pub fn handle_event(&mut self, ev: UiEvent) -> (a: UiAction)
        requires
            old(self)@.wf(),
        ensures
            final(self)@ == Self::step_spec(old(self)@, ev),
            a == Self::action_spec(old(self)@, ev),
            final(self)@.wf(),
    {
        match ev {
            UiEvent::Up => {
                self.move_up();
                UiAction::Continue
            },
            UiEvent::Down => {
                self.move_down();
                UiAction::Continue
            },
            UiEvent::PageUp => {
                self.page_up();
                UiAction::Continue
            },
            UiEvent::PageDown => {
                self.page_down();
                UiAction::Continue
            },
            UiEvent::ToggleSelect => {
                self.toggle_current_selection();
                UiAction::Continue
            },
            UiEvent::SelectAll => {
                self.select_all();
                UiAction::Continue
            },
            UiEvent::DeselectAll => {
                self.deselect_all();
                UiAction::Continue
            },
            UiEvent::ToggleSmall => {
                self.toggle_small_files_display();
                UiAction::Continue
            },
            UiEvent::Confirm => {
                if self.selected_count > 0 {
                    UiAction::Confirm
                } else {
                    UiAction::Continue
                }
            },
            UiEvent::Quit => UiAction::Quit,
            UiEvent::Resize(w, h) => {
                self.terminal_width = w;
                self.terminal_height = h;
                UiAction::Continue
            },
            UiEvent::Other => UiAction::Continue,
        }
    }

    /// The state after a whole sequence of events.
    pub open spec fn apply_events(v: UiView, evs: Seq<UiEvent>) -> UiView
        decreases evs.len(),
    {
        if evs.len() == 0 {
            v
        } else {
            Self::step_spec(Self::apply_events(v, evs.drop_last()), evs.last())
        }
    }

    /// Toggling preserves the invariant.
    pub proof fn lemma_toggle_wf(v: UiView)
        requires
            v.wf(),
        ensures
            Self::toggle_spec(v).wf(),
    {
        let vis = visible_idxs(v.entries, v.show_small_files);
        if 0 <= v.current_index < vis.len() {
            lemma_visible_idxs_char(v.entries, v.show_small_files);
            let k = vis[v.current_index] as int;
            let e = v.entries[k];
            let e2 = EntryView { selected: !e.selected, ..e };
            let es = v.entries.update(k, e2);
            lemma_sums_update(v.entries, k, e2);
            if e2.selected {
                lemma_sums_bounded(es);
            } else {
                lemma_selected_member_bound(v.entries, k);
            }
            assert forall|i: int| 0 <= i < es.len() implies (#[trigger] es[i]).size is Some
                && size_of(es[i]) > 0 by {
                if i != k {
                    assert(es[i] == v.entries[i]);
                }
            }
        }
    }

    /// Bulk selection preserves the invariant.
    pub proof fn lemma_select_all_wf(v: UiView)
        requires
            v.wf(),
        ensures
            Self::select_all_spec(v).wf(),
    {
        let es = Self::select_all_spec(v).entries;
        lemma_sum_all_same_sizes(es, v.entries);
        lemma_sums_bounded(es);
    }

    /// Bulk deselection preserves the invariant.
    pub proof fn lemma_deselect_all_wf(v: UiView)
        requires
            v.wf(),
        ensures
            Self::deselect_all_spec(v).wf(),
    {
        let es = Self::deselect_all_spec(v).entries;
        lemma_none_selected(es);
        lemma_sum_all_same_sizes(es, v.entries);
    }

    /// Every single event preserves the invariant.
    pub proof fn lemma_step_preserves_wf(v: UiView, ev: UiEvent)
        requires
            v.wf(),
        ensures
            Self::step_spec(v, ev).wf(),
    {
        match ev {
            UiEvent::ToggleSelect => Self::lemma_toggle_wf(v),
            UiEvent::SelectAll => Self::lemma_select_all_wf(v),
            UiEvent::DeselectAll => Self::lemma_deselect_all_wf(v),
            _ => (),
        }
    }

    /// Aggregate consistency: after any sequence of events — toggles, bulk
    /// selections and deselections, navigation, filter flips, resizes — the
    /// running total still equals the sum of the sizes of exactly the
    /// selected entries, and the running count their number.
    pub proof fn lemma_aggregate_consistency(v: UiView, evs: Seq<UiEvent>)
        requires
            v.wf(),
        ensures
            Self::apply_events(v, evs).wf(),
            Self::apply_events(v, evs).total_selected_size == sum_selected(
                Self::apply_events(v, evs).entries,
            ),
            Self::apply_events(v, evs).selected_count == count_selected(
                Self::apply_events(v, evs).entries,
            ),
        decreases evs.len(),
    {
        if evs.len() > 0 {
            Self::lemma_aggregate_consistency(v, evs.drop_last());
            Self::lemma_step_preserves_wf(Self::apply_events(v, evs.drop_last()), evs.last());
        }
    }

    /// Select-all exclusivity: after selecting all, no entry under 10 MiB is
    /// selected — small files are never bulk-selected.
    pub proof fn lemma_select_all_exclusive(v: UiView)
        ensures
            forall|i: int|
                0 <= i < Self::select_all_spec(v).entries.len() && size_of(
                    #[trigger] Self::select_all_spec(v).entries[i],
                ) < SMALL_LIMIT ==> !Self::select_all_spec(v).entries[i].selected,
    {
        let es = Self::select_all_spec(v).entries;
        assert forall|i: int|
            0 <= i < es.len() && size_of(#[trigger] es[i]) < SMALL_LIMIT implies !es[i].selected by {
            assert(es[i] == (EntryView {
                selected: size_of(v.entries[i]) >= SMALL_LIMIT,
                ..v.entries[i]
            }));
        }
    }
}

/// Filter monotonicity: with small files hidden, every visible entry is at
/// least 10 MiB; showing them makes every index visible — a superset — and
/// the indices gained are exactly those of the entries under 10 MiB.
pub proof fn lemma_filter_monotonic(entries: Seq<EntryView>)
    requires
        entries.len() <= usize::MAX,
    ensures
        forall|j: int|
            0 <= j < visible_idxs(entries, false).len() ==> size_of(
                entries[(#[trigger] visible_idxs(entries, false)[j]) as int],
            ) >= SMALL_LIMIT,
        forall|u: usize| #[trigger] visible_idxs(entries, true).contains(u) <==> u < entries.len(),
        forall|u: usize|
            #[trigger] visible_idxs(entries, false).contains(u) ==> visible_idxs(
                entries,
                true,
            ).contains(u),
        forall|u: usize|
            u < entries.len() ==> ((visible_idxs(entries, true).contains(u)
                && !visible_idxs(entries, false).contains(u)) <==> size_of(entries[u as int])
                < SMALL_LIMIT),
{
    lemma_visible_idxs_char(entries, false);
    lemma_visible_idxs_char(entries, true);
    let hid = visible_idxs(entries, false);
    let all = visible_idxs(entries, true);
    assert forall|u: usize| #[trigger] all.contains(u) implies u < entries.len() by {
        let j = choose|j: int| 0 <= j < all.len() && all[j] == u;
    }
    assert forall|u: usize| #[trigger] hid.contains(u) implies u < entries.len() && size_of(
        entries[u as int],
    ) >= SMALL_LIMIT by {
        let j = choose|j: int| 0 <= j < hid.len() && hid[j] == u;
    }
    assert forall|u: usize|
        u < entries.len() && size_of(entries[u as int]) >= SMALL_LIMIT implies hid.contains(u) by {
        assert(is_visible(entries[u as int], false));
    }
}

/// One discrete input event, as the outer loop hands it to the engine.
#[derive(Clone, Copy, Debug, PartialEq, Eq, Structural)]
pub enum UiEvent {
    /// Move the cursor up one visible row.
    Up,
    /// Move the cursor down one visible row.
    Down,
    /// Move a full page up.
    PageUp,
    /// Move a full page down.
    PageDown,
    /// Flip the selection of the entry under the cursor.
    ToggleSelect,
    /// Select every entry of at least 10 MiB.
    SelectAll,
    /// Clear every selection.
    DeselectAll,
    /// Flip the small-file visibility filter.
    ToggleSmall,
    /// Ask to delete the selected entries.
    Confirm,
    /// Leave the program.
    Quit,
    /// The terminal was resized to the given width and height.
    Resize(u16, u16),
    /// Any key without a meaning here.
    Other,
}

/// What the outer loop does after an event.
#[derive(Clone, Copy, Debug, PartialEq, Eq, Structural)]
pub enum UiAction {
    /// Render and wait for the next event.
    Continue,
    /// Move on to the confirmation step.
    Confirm,
    /// End the program.
    Quit,
}

} // verus!
