use maclean::entry::CleanEntry;
use maclean::ui::{UIState, UiAction, UiEvent};

const MIB: u64 = 1024 * 1024;

fn entry(path: &str, desc: &str, size: u64) -> CleanEntry {
    let mut e = CleanEntry::new(path.to_string(), desc.to_string(), 100);
    e.size = Some(size);
    e
}

fn three_entries() -> Vec<CleanEntry> {
    vec![
        entry("/tmp/a", "a", 50 * MIB),
        entry("/tmp/b", "b", 20 * MIB),
        entry("/tmp/c", "c", 5 * MIB),
    ]
}

#[test]
fn select_all_counts_only_large_entries() {
    // Three entries sized 50, 20 and 5 MiB: select-all takes the two large
    // ones and leaves the small one out of the aggregates.
    let mut ui = UIState::new(three_entries(), 80, 24);
    ui.select_all();
    assert_eq!(ui.selected_count, 2);
    assert_eq!(ui.total_selected_size, 70 * MIB);
}

#[test]
fn select_all_never_selects_small_entries() {
    let mut ui = UIState::new(three_entries(), 80, 24);
    // Select the small entry by hand first, with the filter off.
    ui.toggle_small_files_display();
    ui.move_down();
    ui.move_down();
    ui.toggle_current_selection();
    assert!(ui.entries[2].selected);
    ui.select_all();
    for e in &ui.entries {
        if e.size.unwrap() < 10 * MIB {
            assert!(!e.selected);
        } else {
            assert!(e.selected);
        }
    }
}

#[test]
fn deselect_all_clears_everything() {
    let mut ui = UIState::new(three_entries(), 80, 24);
    ui.select_all();
    ui.deselect_all();
    assert_eq!(ui.selected_count, 0);
    assert_eq!(ui.total_selected_size, 0);
    assert!(ui.entries.iter().all(|e| !e.selected));
}

#[test]
fn visible_entries_hide_small_files_by_default() {
    let ui = UIState::new(three_entries(), 80, 24);
    let vis = ui.get_visible_entries();
    assert_eq!(vis, vec![0, 1]);
}

#[test]
fn visible_entries_with_filter_off_is_a_superset() {
    let mut ui = UIState::new(three_entries(), 80, 24);
    let hidden = ui.get_visible_entries();
    ui.toggle_small_files_display();
    let all = ui.get_visible_entries();
    assert_eq!(all, vec![0, 1, 2]);
    for i in &hidden {
        assert!(all.contains(i));
    }
    // Exactly the small entries are gained by showing small files.
    let gained: Vec<usize> = all.iter().copied().filter(|i| !hidden.contains(i)).collect();
    assert_eq!(gained, vec![2]);
    for i in gained {
        assert!(ui.entries[i].size.unwrap() < 10 * MIB);
    }
}

#[test]
fn toggle_updates_aggregates_incrementally() {
    let mut ui = UIState::new(three_entries(), 80, 24);
    ui.toggle_current_selection();
    assert_eq!(ui.selected_count, 1);
    assert_eq!(ui.total_selected_size, 50 * MIB);
    ui.move_down();
    ui.toggle_current_selection();
    assert_eq!(ui.selected_count, 2);
    assert_eq!(ui.total_selected_size, 70 * MIB);
    ui.toggle_current_selection();
    assert_eq!(ui.selected_count, 1);
    assert_eq!(ui.total_selected_size, 50 * MIB);
}

#[test]
fn aggregates_stay_consistent_under_event_sequences() {
    let mut ui = UIState::new(three_entries(), 80, 24);
    let events = [
        UiEvent::ToggleSelect,
        UiEvent::Down,
        UiEvent::ToggleSelect,
        UiEvent::ToggleSmall,
        UiEvent::Down,
        UiEvent::Down,
        UiEvent::ToggleSelect,
        UiEvent::SelectAll,
        UiEvent::Up,
        UiEvent::ToggleSelect,
        UiEvent::PageDown,
        UiEvent::DeselectAll,
        UiEvent::ToggleSelect,
        UiEvent::Resize(100, 30),
        UiEvent::ToggleSelect,
    ];
    for ev in events {
        ui.handle_event(ev);
        let sum: u64 = ui.entries.iter().filter(|e| e.selected).map(|e| e.size.unwrap()).sum();
        let count = ui.entries.iter().filter(|e| e.selected).count();
        assert_eq!(ui.total_selected_size, sum);
        assert_eq!(ui.selected_count, count);
    }
}

#[test]
fn cursor_stays_within_visible_set() {
    let mut ui = UIState::new(three_entries(), 80, 24);
    ui.move_up();
    assert_eq!(ui.current_index, 0);
    ui.move_down();
    assert_eq!(ui.current_index, 1);
    // Only two visible entries: the cursor stops at the last one.
    ui.move_down();
    assert_eq!(ui.current_index, 1);
    ui.move_up();
    assert_eq!(ui.current_index, 0);
}

#[test]
fn page_down_clamps_to_last_visible_row() {
    let mut entries = Vec::new();
    for i in 0..10 {
        entries.push(entry(&format!("/tmp/e{i}"), "e", 20 * MIB));
    }
    // Height 7 leaves a 3-row viewport.
    let mut ui = UIState::new(entries, 80, 7);
    ui.page_down();
    assert_eq!(ui.current_index, 3);
    ui.page_down();
    ui.page_down();
    ui.page_down();
    assert_eq!(ui.current_index, 9);
    assert_eq!(ui.scroll_offset, 7);
    ui.page_up();
    assert_eq!(ui.current_index, 6);
    assert_eq!(ui.scroll_offset, 4);
}

#[test]
fn scrolling_keeps_cursor_on_screen() {
    let mut entries = Vec::new();
    for i in 0..10 {
        entries.push(entry(&format!("/tmp/e{i}"), "e", 20 * MIB));
    }
    let mut ui = UIState::new(entries, 80, 7);
    for _ in 0..4 {
        ui.move_down();
    }
    // Viewport of 3 rows: cursor at 4 forces the scroll to 2.
    assert_eq!(ui.current_index, 4);
    assert_eq!(ui.scroll_offset, 2);
    for _ in 0..4 {
        ui.move_up();
    }
    assert_eq!(ui.current_index, 0);
    assert_eq!(ui.scroll_offset, 0);
}

#[test]
fn toggle_filter_resets_cursor_and_scroll() {
    let mut entries = Vec::new();
    for i in 0..10 {
        entries.push(entry(&format!("/tmp/e{i}"), "e", 20 * MIB));
    }
    let mut ui = UIState::new(entries, 80, 7);
    ui.page_down();
    ui.page_down();
    ui.toggle_small_files_display();
    assert!(ui.show_small_files);
    assert_eq!(ui.current_index, 0);
    assert_eq!(ui.scroll_offset, 0);
}

#[test]
fn confirm_event_needs_a_selection() {
    let mut ui = UIState::new(three_entries(), 80, 24);
    assert_eq!(ui.handle_event(UiEvent::Confirm), UiAction::Continue);
    ui.handle_event(UiEvent::ToggleSelect);
    assert_eq!(ui.handle_event(UiEvent::Confirm), UiAction::Confirm);
    assert_eq!(ui.handle_event(UiEvent::Quit), UiAction::Quit);
    assert_eq!(ui.handle_event(UiEvent::Other), UiAction::Continue);
}

#[test]
fn resize_updates_dimensions_only() {
    let mut ui = UIState::new(three_entries(), 80, 24);
    ui.handle_event(UiEvent::Resize(120, 40));
    assert_eq!(ui.terminal_width, 120);
    assert_eq!(ui.terminal_height, 40);
    assert_eq!(ui.current_index, 0);
    assert_eq!(ui.selected_count, 0);
}

#[test]
fn selected_entries_come_in_list_order() {
    let mut ui = UIState::new(three_entries(), 80, 24);
    ui.move_down();
    ui.toggle_current_selection();
    ui.move_up();
    ui.toggle_current_selection();
    assert_eq!(ui.get_selected_entries(), vec![0, 1]);
}
