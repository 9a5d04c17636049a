use maclean::entry::CleanEntry;
use maclean::prepare::prepare_entries;
use maclean::ui::UIState;
use maclean::view::{
    confirm_decision, confirm_view, render_model, size_display, DialogKey, SizeDisplay, SizeUnit,
};

const MIB: u64 = 1024 * 1024;

fn entry(path: &str, desc: &str, size: u64) -> CleanEntry {
    let mut e = CleanEntry::new(path.to_string(), desc.to_string(), 100);
    e.size = Some(size);
    e
}

#[test]
fn size_display_picks_the_largest_reached_unit() {
    assert_eq!(size_display(512), SizeDisplay { whole: 512, centi: 0, unit: SizeUnit::B });
    assert_eq!(size_display(1536), SizeDisplay { whole: 1, centi: 50, unit: SizeUnit::KiB });
    assert_eq!(
        size_display(5 * MIB + MIB / 4),
        SizeDisplay { whole: 5, centi: 25, unit: SizeUnit::MiB }
    );
    assert_eq!(
        size_display(3 * 1024 * MIB),
        SizeDisplay { whole: 3, centi: 0, unit: SizeUnit::GiB }
    );
    assert_eq!(
        size_display(2 * 1024 * 1024 * MIB + 1024 * 1024 * MIB / 2),
        SizeDisplay { whole: 2, centi: 50, unit: SizeUnit::TiB }
    );
}

#[test]
fn size_display_truncates_the_hundredths() {
    // 1023 bytes over 1 KiB: 1023/1024 = 0.999..., shown truncated as 99.
    assert_eq!(size_display(1024 + 1023), SizeDisplay { whole: 1, centi: 99, unit: SizeUnit::KiB });
}

#[test]
fn prepare_drops_empty_entries_and_sorts_descending() {
    let mut zero = CleanEntry::new("/z".to_string(), "z".to_string(), 100);
    zero.size = Some(0);
    let unscanned = CleanEntry::new("/u".to_string(), "u".to_string(), 100);
    let mut selected = entry("/s", "s", 30 * MIB);
    selected.selected = true;
    let input = vec![entry("/a", "a", 20 * MIB), zero, selected, unscanned, entry("/b", "b", 50 * MIB)];
    let out = prepare_entries(input);
    let sizes: Vec<u64> = out.iter().map(|e| e.size.unwrap()).collect();
    assert_eq!(sizes, vec![50 * MIB, 30 * MIB, 20 * MIB]);
    // Stray selection flags are cleared before the engine sees the list.
    assert!(out.iter().all(|e| !e.selected));
    let paths: Vec<&str> = out.iter().map(|e| e.path.as_str()).collect();
    assert_eq!(paths, vec!["/b", "/s", "/a"]);
}

#[test]
fn render_model_projects_the_viewport_slice() {
    let mut entries = Vec::new();
    for i in 0..6 {
        entries.push(entry(&format!("/tmp/e{i}"), &format!("d{i}"), (20 + i) * MIB));
    }
    // Height 7 leaves 3 rows.
    let mut ui = UIState::new(entries, 80, 7);
    ui.move_down();
    let m = render_model(&ui);
    assert_eq!(m.start_index, 0);
    assert_eq!(m.end_index, 3);
    assert_eq!(m.rows.len(), 3);
    assert_eq!(m.visible_count, 6);
    assert_eq!(m.total_count, 6);
    assert_eq!(m.hidden_count, 0);
    assert_eq!(m.rows[0].path, "/tmp/e0");
    assert_eq!(m.rows[1].description, "d1");
    assert!(m.rows[1].is_current);
    assert!(!m.rows[0].is_current);
    assert_eq!(m.rows[2].size, 22 * MIB);
    assert!(!m.rows[0].is_small);
}

#[test]
fn render_model_counts_hidden_small_files() {
    let entries = vec![entry("/a", "a", 50 * MIB), entry("/b", "b", MIB)];
    let ui = UIState::new(entries, 80, 24);
    let m = render_model(&ui);
    assert_eq!(m.visible_count, 1);
    assert_eq!(m.total_count, 2);
    assert_eq!(m.hidden_count, 1);
    assert!(!m.show_small_files);
}

#[test]
fn render_model_marks_small_files_when_shown() {
    let entries = vec![entry("/a", "a", 50 * MIB), entry("/b", "b", MIB)];
    let mut ui = UIState::new(entries, 80, 24);
    ui.toggle_small_files_display();
    let m = render_model(&ui);
    assert_eq!(m.visible_count, 2);
    assert_eq!(m.hidden_count, 0);
    assert!(!m.rows[0].is_small);
    assert!(m.rows[1].is_small);
}

#[test]
fn confirm_view_sums_and_truncates_the_listing() {
    let mut selected = Vec::new();
    for i in 0..12 {
        selected.push(entry(&format!("/tmp/e{i}"), &format!("d{i}"), 10 * MIB));
    }
    let v = confirm_view(&selected);
    assert_eq!(v.count, 12);
    assert_eq!(v.total_size, 120 * MIB);
    assert_eq!(v.shown.len(), 10);
    assert_eq!(v.shown[0], "d0");
    assert_eq!(v.shown[9], "d9");
    assert_eq!(v.extra, 2);
}

#[test]
fn confirm_view_of_a_short_list_shows_everything() {
    let selected = vec![entry("/a", "a", MIB), entry("/b", "b", 2 * MIB)];
    let v = confirm_view(&selected);
    assert_eq!(v.count, 2);
    assert_eq!(v.total_size, 3 * MIB);
    assert_eq!(v.shown, vec!["a", "b"]);
    assert_eq!(v.extra, 0);
}

#[test]
fn dialog_keys_decide_yes_no_or_nothing() {
    assert_eq!(confirm_decision(DialogKey::Char('y')), Some(true));
    assert_eq!(confirm_decision(DialogKey::Char('Y')), Some(true));
    assert_eq!(confirm_decision(DialogKey::Enter), Some(true));
    assert_eq!(confirm_decision(DialogKey::Char('n')), Some(false));
    assert_eq!(confirm_decision(DialogKey::Char('N')), Some(false));
    assert_eq!(confirm_decision(DialogKey::Esc), Some(false));
    assert_eq!(confirm_decision(DialogKey::Char('x')), None);
    assert_eq!(confirm_decision(DialogKey::Other), None);
}
