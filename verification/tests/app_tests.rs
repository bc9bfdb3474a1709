use pagewatch::app::{App, Effect, InputField, InputMode, Key};
use pagewatch::display::{mode_cell_text, name_cell_text, value_cell_text};
use pagewatch::listing::SortColumn;
use pagewatch::models::{Timestamp, TrackingMode, Watch};

fn watch(name: &str, url: &str) -> Watch {
    Watch::new(name.to_string(), url.to_string(), TrackingMode::FullPage)
}

fn app_with(names: &[&str]) -> App {
    App::new(names.iter().map(|n| watch(n, &format!("https://{}.example", n))).collect())
}

fn press(app: &mut App, keys: &[Key]) -> Vec<Effect> {
    keys.iter().map(|k| app.handle_key(*k)).collect()
}

fn type_text(app: &mut App, s: &str) {
    for c in s.chars() {
        assert_eq!(app.handle_key(Key::Char(c)), Effect::Nothing);
    }
}

#[test]
fn opens_with_first_row_selected() {
    let app = app_with(&["b", "a"]);
    assert_eq!(app.selected, Some(0));
    assert_eq!(app.input_mode, InputMode::Normal);
    assert!(App::new(vec![]).selected.is_none());
}

#[test]
fn lists_by_name_ignoring_case_and_filters() {
    let mut app = app_with(&["beta", "Alpha", "gamma"]);
    assert_eq!(app.filtered_indices(), vec![1, 0, 2]);
    app.sort_ascending = false;
    assert_eq!(app.filtered_indices(), vec![2, 0, 1]);
    app.sort_ascending = true;
    app.search_query = "AL".to_string();
    assert_eq!(app.filtered_indices(), vec![1]);
    app.search_query = "example".to_string();
    assert_eq!(app.filtered_indices().len(), 3);
    app.search_query = "zzz".to_string();
    assert!(app.filtered_indices().is_empty());
}

#[test]
fn sorts_by_last_check_and_success_rate_with_stable_ties() {
    let mut app = app_with(&["a", "b", "c", "d"]);
    app.watches[0].last_checked = Some(Timestamp { secs: 50, nanos: 0 });
    app.watches[1].last_checked = None;
    app.watches[2].last_checked = Some(Timestamp { secs: 10, nanos: 5 });
    app.watches[3].last_checked = Some(Timestamp { secs: 10, nanos: 1 });
    app.sort_column = SortColumn::LastChecked;
    assert_eq!(app.filtered_indices(), vec![1, 3, 2, 0]);

    app.sort_column = SortColumn::SuccessRate;
    for (i, (s, c)) in [(1u64, 2u64), (0, 0), (2, 4), (3, 3)].iter().enumerate() {
        app.watches[i].total_successes = *s;
        app.watches[i].total_checks = *c;
    }
    assert_eq!(app.filtered_indices(), vec![1, 0, 2, 3]);
    app.sort_ascending = false;
    assert_eq!(app.filtered_indices(), vec![3, 0, 2, 1]);
}

#[test]
fn navigation_wraps_and_marks_seen() {
    let mut app = app_with(&["a", "b", "c"]);
    app.watches[1].has_unread_change = true;
    app.handle_key(Key::Down);
    assert_eq!(app.selected, Some(1));
    assert!(!app.watches[1].has_unread_change);
    press(&mut app, &[Key::Down, Key::Down]);
    assert_eq!(app.selected, Some(0));
    app.handle_key(Key::Up);
    assert_eq!(app.selected, Some(2));
    app.handle_key(Key::Down);
    assert_eq!(app.selected, Some(0));
}

#[test]
fn adds_a_watch_through_the_form() {
    let mut app = app_with(&["a"]);
    assert_eq!(app.handle_key(Key::Char('n')), Effect::Nothing);
    assert_eq!(app.input_mode, InputMode::Editing);
    type_text(&mut app, "Shop");
    app.handle_key(Key::Enter);
    type_text(&mut app, "https://shop.example");
    app.handle_key(Key::Enter);
    type_text(&mut app, "6x0");
    assert_eq!(app.interval_input, "60");
    app.handle_key(Key::Backspace);
    assert_eq!(app.interval_input, "6");
    app.handle_key(Key::Enter);
    assert_eq!(app.input_field, InputField::Mode);
    press(&mut app, &[Key::Down, Key::Down, Key::Down]);
    assert_eq!(app.mode_selection, 3);
    app.handle_key(Key::Enter);
    assert_eq!(app.input_field, InputField::Advanced);
    type_text(&mut app, " sale , new,, ");
    assert_eq!(app.handle_key(Key::Enter), Effect::Save);
    assert_eq!(app.watches.len(), 2);
    let w = &app.watches[1];
    assert_eq!(w.name, "Shop");
    assert_eq!(w.url, "https://shop.example");
    assert_eq!(w.interval_seconds, 6);
    assert_eq!(w.mode, TrackingMode::Keyword { keywords: vec!["sale".to_string(), "new".to_string()] });
    assert_eq!(app.selected, Some(1));
    assert_eq!(app.input_mode, InputMode::Normal);
    assert_eq!(app.name_input, "");
}

#[test]
fn blank_form_adds_nothing() {
    let mut app = app_with(&["a"]);
    app.handle_key(Key::Char('n'));
    type_text(&mut app, "   ");
    press(&mut app, &[Key::Enter, Key::Enter, Key::Enter]);
    assert_eq!(app.handle_key(Key::Enter), Effect::Nothing);
    assert_eq!(app.watches.len(), 1);
    assert_eq!(app.input_mode, InputMode::Normal);
}

#[test]
fn mode_choice_wraps() {
    let mut app = app_with(&[]);
    app.handle_key(Key::Char('n'));
    press(&mut app, &[Key::Enter, Key::Enter, Key::Enter]);
    app.handle_key(Key::Up);
    assert_eq!(app.mode_selection, 4);
    app.handle_key(Key::Down);
    assert_eq!(app.mode_selection, 0);
    app.handle_key(Key::Esc);
    assert_eq!(app.input_mode, InputMode::Normal);
}

#[test]
fn editing_fills_the_form_and_keeps_the_watch() {
    let mut app = App::new(vec![Watch::new(
        "Site".to_string(),
        "https://x".to_string(),
        TrackingMode::Keyword { keywords: vec!["one".to_string(), "two".to_string()] },
    )]);
    app.watches[0].interval_seconds = 90;
    app.watches[0].last_value = Some("kept".to_string());
    app.handle_key(Key::Char('e'));
    assert_eq!(app.input_mode, InputMode::Editing);
    assert_eq!(app.editing_watch_index, Some(0));
    assert_eq!(app.name_input, "Site");
    assert_eq!(app.interval_input, "90");
    assert_eq!(app.mode_selection, 3);
    assert_eq!(app.advanced_input, "one, two");
    assert_eq!(app.form_title(), "Edit Watch");
    let effects = press(&mut app, &[Key::Enter, Key::Enter, Key::Enter, Key::Enter, Key::Enter]);
    assert_eq!(effects.last(), Some(&Effect::Save));
    assert_eq!(app.watches.len(), 1);
    let w = &app.watches[0];
    assert_eq!(w.interval_seconds, 90);
    assert_eq!(w.mode, TrackingMode::Keyword { keywords: vec!["one".to_string(), "two".to_string()] });
    assert_eq!(w.last_value, Some("kept".to_string()));
}

#[test]
fn deletes_the_selected_watch_after_confirmation() {
    let mut app = app_with(&["b", "a", "c"]);
    app.selected = Some(1);
    app.handle_key(Key::Char('d'));
    assert_eq!(app.input_mode, InputMode::ConfirmDelete);
    app.handle_key(Key::Char('n'));
    assert_eq!(app.watches.len(), 3);
    app.handle_key(Key::Char('d'));
    assert_eq!(app.handle_key(Key::Char('y')), Effect::Save);
    let names: Vec<&str> = app.watches.iter().map(|w| w.name.as_str()).collect();
    assert_eq!(names, vec!["a", "c"]);
    assert_eq!(app.selected, Some(0));
    assert_eq!(app.input_mode, InputMode::Normal);
}

#[test]
fn sort_key_cycles_through_four_sorts() {
    let mut app = app_with(&["a"]);
    let mut seen = vec![];
    for _ in 0..4 {
        app.handle_key(Key::Char('s'));
        seen.push((app.sort_column, app.sort_ascending));
    }
    assert_eq!(
        seen,
        vec![
            (SortColumn::LastChecked, true),
            (SortColumn::SuccessRate, true),
            (SortColumn::SuccessRate, false),
            (SortColumn::Name, true)
        ]
    );
}

#[test]
fn check_key_and_results() {
    let mut app = app_with(&["b", "a"]);
    assert_eq!(app.handle_key(Key::Char('c')), Effect::StartCheck(1));
    assert_eq!(app.pending_checks, 1);
    let mut updated = app.watches[1].clone();
    updated.last_value = Some("v".to_string());
    assert!(app.apply_check_result(updated));
    assert_eq!(app.watches[1].last_value, Some("v".to_string()));
    assert_eq!(app.watches[0].last_value, None);
    assert_eq!(app.pending_checks, 0);
    assert!(!app.apply_check_result(watch("x", "y")));
    assert_eq!(app.watches.len(), 2);
    assert_eq!(app.pending_checks, 0);
    assert_eq!(app.handle_key(Key::Char('q')), Effect::Quit);
}

#[test]
fn result_of_a_deleted_watch_is_dropped() {
    let mut app = app_with(&["a", "b"]);
    let w1 = app.watches[1].clone();
    assert_eq!(app.handle_key(Key::Char('c')), Effect::StartCheck(0));
    let mut checked = app.watches[0].clone();
    checked.last_value = Some("v".to_string());
    assert_eq!(app.handle_key(Key::Char('d')), Effect::Nothing);
    assert_eq!(app.handle_key(Key::Char('y')), Effect::Save);
    assert_eq!(app.watches.len(), 1);
    assert!(!app.apply_check_result(checked));
    assert_eq!(app.watches.len(), 1);
    assert_eq!(app.watches[0].id, w1.id);
    assert_eq!(app.watches[0].name, w1.name);
    assert_eq!(app.watches[0].last_value, None);
    assert_eq!(app.pending_checks, 0);
}

#[test]
fn search_mode_edits_the_query() {
    let mut app = app_with(&["alpha", "beta"]);
    app.handle_key(Key::Char('/'));
    assert_eq!(app.input_mode, InputMode::Search);
    type_text(&mut app, "bex");
    app.handle_key(Key::Backspace);
    assert_eq!(app.search_query, "be");
    assert_eq!(app.filtered_indices(), vec![1]);
    app.handle_key(Key::Esc);
    assert_eq!(app.input_mode, InputMode::Normal);
}

#[test]
fn details_scroll_saturates() {
    let mut app = app_with(&["a"]);
    app.handle_key(Key::Enter);
    assert_eq!(app.input_mode, InputMode::Details);
    app.handle_key(Key::Up);
    assert_eq!(app.scroll, 0);
    press(&mut app, &[Key::Down, Key::Down]);
    assert_eq!(app.scroll, 2);
    app.handle_key(Key::Char('q'));
    assert_eq!(app.input_mode, InputMode::Normal);
}

#[test]
fn tick_schedules_due_watches() {
    let mut app = app_with(&["a", "b", "c"]);
    app.watches[0].last_checked = Some(Timestamp { secs: 1000, nanos: 0 });
    app.watches[0].interval_seconds = 60;
    app.watches[1].last_checked = Some(Timestamp { secs: 1000, nanos: 500_000_000 });
    app.watches[1].interval_seconds = 60;
    let now = Timestamp { secs: 1060, nanos: 0 };
    assert_eq!(app.tick(4999, now), None);
    assert_eq!(app.tick(5000, now), Some(vec![0, 2]));
    assert_eq!(app.pending_checks, 2);
    app.is_paused = true;
    assert_eq!(app.tick(10_000, now), None);
}

#[test]
fn cells_and_titles() {
    let mut w = watch("Shop", "u");
    assert_eq!(value_cell_text(&w), "Pending...");
    w.has_unread_change = true;
    assert_eq!(name_cell_text(&w), "\u{25cf} Shop");
    w.last_value = Some("x".repeat(31));
    assert_eq!(value_cell_text(&w), format!("{}...", "x".repeat(30)));
    w.last_value = Some("short".to_string());
    assert_eq!(value_cell_text(&w), "short");
    w.last_error = Some("boom".to_string());
    assert_eq!(value_cell_text(&w), "Error: boom");
    assert_eq!(mode_cell_text(&TrackingMode::Price { selector: None }), "Price");

    let mut app = app_with(&["a", "b"]);
    assert_eq!(app.list_title_text(1), " Watches (1/2) - Sorting by Name \u{25b2}  ");
    app.is_paused = true;
    app.sort_ascending = false;
    assert_eq!(app.list_title_text(2), " Watches (2/2) - Sorting by Name \u{25bc} - PAUSED ");
    assert_eq!(app.status_text(), "q:quit n:add e:edit c:check d:del /:search p:pause s:sort");
    app.pending_checks = 3;
    assert_eq!(app.status_text(), "Checking 3 watch(es)... (UI is responsive)");
}

#[test]
fn marked_watches_are_checked_and_deleted_together() {
    let mut app = app_with(&["a", "b", "c"]);
    app.handle_key(Key::Char(' '));
    press(&mut app, &[Key::Down, Key::Down]);
    app.handle_key(Key::Char(' '));
    assert_eq!(app.marked, vec![0, 2]);
    assert_eq!(app.handle_key(Key::Char('c')), Effect::StartMarkedChecks);
    assert_eq!(app.pending_checks, 2);
    app.handle_key(Key::Char(' '));
    assert_eq!(app.marked, vec![0]);
    app.handle_key(Key::Char(' '));
    app.handle_key(Key::Char('d'));
    assert_eq!(app.input_mode, InputMode::ConfirmDelete);
    assert_eq!(app.handle_key(Key::Enter), Effect::Save);
    let names: Vec<&str> = app.watches.iter().map(|w| w.name.as_str()).collect();
    assert_eq!(names, vec!["b"]);
    assert!(app.marked.is_empty());
    assert_eq!(app.selected, Some(0));
}
