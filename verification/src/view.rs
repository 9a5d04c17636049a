//! Render-ready projections of the engine's state: the visible slice of the
//! list with per-row flags, the position and aggregate counters, a
//! structured size breakdown, and the confirmation summary. No styling, no
//! widths, no terminal: drawing happens outside the library.

use vstd::prelude::*;
use crate::entry::{entry_views, size_of, sum_all, CleanEntry, SMALL_LIMIT};
use crate::scan::saturate_u64;
use crate::ui::{lemma_visible_idxs_char, lemma_visible_idxs_len, visible_idxs, UIState};

verus! {

/// One kibibyte.
pub const KIB: u64 = 1024;

/// One mebibyte.
pub const MIB: u64 = 1024 * 1024;

/// One gibibyte.
pub const GIB: u64 = 1024 * 1024 * 1024;

/// One tebibyte.
pub const TIB: u64 = 1024 * 1024 * 1024 * 1024;

/// The unit a byte count is shown in.
#[derive(Clone, Copy, Debug, PartialEq, Eq, Structural)]
pub enum SizeUnit {
    B,
    KiB,
    MiB,
    GiB,
    TiB,
}

/// A byte count broken down for display: a whole part, two decimal digits
/// (hundredths, truncated), and the unit.
#[derive(Clone, Copy, Debug, PartialEq, Eq, Structural)]
pub struct SizeDisplay {
    pub whole: u64,
    pub centi: u64,
    pub unit: SizeUnit,
}

/// The display breakdown of a byte count: bytes below 1 KiB, then the
/// largest unit the count reaches, with hundredths truncated.
pub open spec fn size_display_spec(size: u64) -> SizeDisplay {
    if size < KIB {
        SizeDisplay { whole: size, centi: 0, unit: SizeUnit::B }
    } else if size < MIB {
        SizeDisplay {
            whole: (size / KIB) as u64,
            centi: (size % KIB * 100 / (KIB as int)) as u64,
            unit: SizeUnit::KiB,
        }
    } else if size < GIB {
        SizeDisplay {
            whole: (size / MIB) as u64,
            centi: (size % MIB * 100 / (MIB as int)) as u64,
            unit: SizeUnit::MiB,
        }
    } else if size < TIB {
        SizeDisplay {
            whole: (size / GIB) as u64,
            centi: (size % GIB * 100 / (GIB as int)) as u64,
            unit: SizeUnit::GiB,
        }
    } else {
        SizeDisplay {
            whole: (size / TIB) as u64,
            centi: (size % TIB * 100 / (TIB as int)) as u64,
            unit: SizeUnit::TiB,
        }
    }
}

/// Break a byte count down for display.
pub fn size_display(size: u64) -> (r: SizeDisplay)
    ensures
        r == size_display_spec(size),
{
    if size < KIB {
        SizeDisplay { whole: size, centi: 0, unit: SizeUnit::B }
    } else if size < MIB {
        SizeDisplay { whole: size / KIB, centi: size % KIB * 100 / KIB, unit: SizeUnit::KiB }
    } else if size < GIB {
        SizeDisplay { whole: size / MIB, centi: size % MIB * 100 / MIB, unit: SizeUnit::MiB }
    } else if size < TIB {
        SizeDisplay { whole: size / GIB, centi: size % GIB * 100 / GIB, unit: SizeUnit::GiB }
    } else {
        SizeDisplay { whole: size / TIB, centi: size % TIB * 100 / TIB, unit: SizeUnit::TiB }
    }
}

/// One row of the visible slice, ready to draw.
pub struct RenderRow {
    /// Index of the entry in the engine's underlying list.
    pub entry_index: usize,
    pub path: String,
    pub description: String,
    pub size: u64,
    pub selected: bool,
    /// Whether the cursor stands on this row.
    pub is_current: bool,
    /// Whether the entry is under 10 MiB.
    pub is_small: bool,
}

/// A frame's worth of state: the slice of visible rows in the viewport and
/// every counter the status lines show.
pub struct RenderModel {
    pub rows: Vec<RenderRow>,
    /// Position of the first shown row within the visible set.
    pub start_index: usize,
    /// One past the position of the last shown row.
    pub end_index: usize,
    /// How many entries are visible under the filter.
    pub visible_count: usize,
    /// How many entries the list holds in all.
    pub total_count: usize,
    /// How many entries the filter hides.
    pub hidden_count: usize,
    pub selected_count: usize,
    pub total_selected_size: u64,
    pub show_small_files: bool,
}

/// Project the engine's state into a render-ready frame: the visible rows
/// from the scroll position down to the viewport's end, each with its
/// cursor, selection and small-file flags, and the counters.
pub fn render_model(ui: &UIState) -> (r: RenderModel)
    ensures
        ({
            let v = ui@;
            let vis = visible_idxs(v.entries, v.show_small_files);
            let n = vis.len();
            let start = if v.scroll_offset < n {
                v.scroll_offset
            } else {
                n as int
            };
            let end = if start + UIState::visible_height_of(v) < n {
                start + UIState::visible_height_of(v)
            } else {
                n as int
            };
            &&& r.start_index == start
            &&& r.end_index == end
            &&& r.rows@.len() == end - start
            &&& forall|k: int|
                0 <= k < r.rows@.len() ==> {
                    let j = start + k;
                    let idx = vis[j] as int;
                    let e = v.entries[idx];
                    &&& (#[trigger] r.rows@[k]).entry_index == vis[j]
                    &&& r.rows@[k].path@ == e.path
                    &&& r.rows@[k].description@ == e.description
                    &&& r.rows@[k].size == size_of(e)
                    &&& r.rows@[k].selected == e.selected
                    &&& r.rows@[k].is_current == (j == v.current_index)
                    &&& r.rows@[k].is_small == (size_of(e) < SMALL_LIMIT)
                }
            &&& r.visible_count == n
            &&& r.total_count == v.entries.len()
            &&& r.hidden_count == if v.show_small_files {
                0int
            } else {
                v.entries.len() - n
            }
            &&& r.selected_count == v.selected_count
            &&& r.total_selected_size == v.total_selected_size
            &&& r.show_small_files == v.show_small_files
        }),
{
    let vis = ui.get_visible_entries();
    proof {
        assert(ui.entries.len() == ui.entries@.len());
        lemma_visible_idxs_char(ui@.entries, ui@.show_small_files);
        lemma_visible_idxs_len(ui@.entries, ui@.show_small_files);
    }
    let h = ui.visible_height();
    let n = vis.len();
    let start = if ui.scroll_offset < n {
        ui.scroll_offset
    } else {
        n
    };
    let stepped = start.saturating_add(h);
    let end = if stepped < n {
        stepped
    } else {
        n
    };
    let mut rows: Vec<RenderRow> = Vec::new();
    let mut k: usize = start;
    while k < end
        invariant
            start <= k <= end,
            end <= n,
            n == vis@.len(),
            vis@ == visible_idxs(ui@.entries, ui@.show_small_files),
            ui@.entries.len() == ui.entries@.len(),
            forall|j: int|
                0 <= j < n ==> (#[trigger] vis@[j]) < ui@.entries.len(),
            rows@.len() == k - start,
            forall|x: int|
                0 <= x < rows@.len() ==> {
                    let j = start + x;
                    let idx = vis@[j] as int;
                    let e = ui@.entries[idx];
                    &&& (#[trigger] rows@[x]).entry_index == vis@[j]
                    &&& rows@[x].path@ == e.path
                    &&& rows@[x].description@ == e.description
                    &&& rows@[x].size == size_of(e)
                    &&& rows@[x].selected == e.selected
                    &&& rows@[x].is_current == (j == ui@.current_index)
                    &&& rows@[x].is_small == (size_of(e) < SMALL_LIMIT)
                },
        decreases end - k,
    {
        let idx = vis[k];
        let size = match ui.entries[idx].size {
            Some(s) => s,
            None => 0,
        };
        rows.push(
            RenderRow {
                entry_index: idx,
                path: ui.entries[idx].path.clone(),
                description: ui.entries[idx].description.clone(),
                size,
                selected: ui.entries[idx].selected,
                is_current: k == ui.current_index,
                is_small: size < SMALL_LIMIT,
            },
        );
        k += 1;
    }
    RenderModel {
        rows,
        start_index: start,
        end_index: end,
        visible_count: n,
        total_count: ui.entries.len(),
        hidden_count: if ui.show_small_files {
            0
        } else {
            ui.entries.len() - n
        },
        selected_count: ui.selected_count,
        total_selected_size: ui.total_selected_size,
        show_small_files: ui.show_small_files,
    }
}

/// The confirmation dialog's content: how many entries are about to go,
/// their combined size, the first descriptions shown (at most ten), and how
/// many more there are beyond those.
pub struct ConfirmView {
    pub count: usize,
    pub total_size: u64,
    pub shown: Vec<String>,
    pub extra: usize,
}

/// Summarize a selected-entries snapshot for the confirmation dialog.
pub fn confirm_view(selected: &Vec<CleanEntry>) -> (r: ConfirmView)
    ensures
        r.count == selected@.len(),
        r.total_size == saturate_u64(sum_all(entry_views(selected@))),
        r.shown@.len() == if selected@.len() < 10 {
            selected@.len() as int
        } else {
            10int
        },
        forall|j: int|
            0 <= j < r.shown@.len() ==> (#[trigger] r.shown@[j])@ == selected@[j].description@,
        r.extra == if selected@.len() > 10 {
            selected@.len() - 10
        } else {
            0int
        },
{
    let count = selected.len();
    let mut total: u64 = 0;
    let mut i: usize = 0;
    while i < count
        invariant
            i <= count,
            count == selected@.len(),
            total == saturate_u64(sum_all(entry_views(selected@).take(i as int))),
        decreases count - i,
    {
        proof {
            assert(entry_views(selected@).take(i + 1).drop_last() =~= entry_views(
                selected@,
            ).take(i as int));
            assert(entry_views(selected@).take(i + 1).last() == selected@[i as int]@);
            lemma_sum_all_nonneg(entry_views(selected@).take(i as int));
        }
        let size = match selected[i].size {
            Some(s) => s,
            None => 0,
        };
        total = total.saturating_add(size);
        i += 1;
    }
    proof {
        assert(entry_views(selected@).take(count as int) =~= entry_views(selected@));
    }
    let shown_len = if count < 10 {
        count
    } else {
        10
    };
    let mut shown: Vec<String> = Vec::new();
    let mut j: usize = 0;
    while j < shown_len
        invariant
            j <= shown_len,
            shown_len <= selected@.len(),
            shown@.len() == j,
            forall|x: int|
                0 <= x < j ==> (#[trigger] shown@[x])@ == selected@[x].description@,
        decreases shown_len - j,
    {
        shown.push(selected[j].description.clone());
        j += 1;
    }
    let extra = if count > 10 {
        count - 10
    } else {
        0
    };
    ConfirmView { count, total_size: total, shown, extra }
}

/// The size total is never negative.
proof fn lemma_sum_all_nonneg(s: Seq<crate::entry::EntryView>)
    ensures
        0 <= sum_all(s),
    decreases s.len(),
{
    if s.len() > 0 {
        lemma_sum_all_nonneg(s.drop_last());
    }
}

/// A key pressed in the confirmation dialog.
#[derive(Clone, Copy, Debug, PartialEq, Eq, Structural)]
pub enum DialogKey {
    Char(char),
    Enter,
    Esc,
    Other,
}

/// What a dialog key decides: yes on `y`, `Y` or enter; no on `n`, `N` or
/// escape; nothing on anything else — the dialog keeps waiting.
pub open spec fn confirm_decision_spec(k: DialogKey) -> Option<bool> {
    match k {
        DialogKey::Char(c) => if c == 'y' || c == 'Y' {
            Some(true)
        } else if c == 'n' || c == 'N' {
            Some(false)
        } else {
            None
        },
        DialogKey::Enter => Some(true),
        DialogKey::Esc => Some(false),
        DialogKey::Other => None,
    }
}

/// Decide the confirmation dialog from one key press.
pub fn confirm_decision(k: DialogKey) -> (r: Option<bool>)
    ensures
        r == confirm_decision_spec(k),
{
    match k {
        DialogKey::Char(c) => if c == 'y' || c == 'Y' {
            Some(true)
        } else if c == 'n' || c == 'N' {
            Some(false)
        } else {
            None
        },
        DialogKey::Enter => Some(true),
        DialogKey::Esc => Some(false),
        DialogKey::Other => None,
    }
}

} // verus!
