use s3_browser::app::{route, Action};
use s3_browser::{App, AppMode, Effect, Entry, EntryKind, Key, ListingError, Navigation, SortConfig, SortKey, Timestamp};

fn dir(path: &str) -> Entry {
    Entry::new(path.to_string(), 0, None)
}

fn file(path: &str, size: i64) -> Entry {
    Entry::new(path.to_string(), size, None)
}

fn file_at(path: &str, secs: i64) -> Entry {
    Entry::new(path.to_string(), 1, Some(Timestamp { secs, nanos: 0 }))
}

fn open(prefix: Option<&str>, entries: Vec<Entry>) -> App {
    App::new("data".to_string(), prefix.map(|p| p.to_string()), Ok(entries)).unwrap()
}

fn paths(app: &App) -> Vec<String> {
    app.items.items.iter().map(|e| e.path.clone()).collect()
}

fn selected_label(app: &App) -> Option<String> {
    app.items.selected_entry().map(|e| e.label.clone())
}

#[test]
fn scenario_descend_into_directory() {
    let mut app = open(Some(""), vec![dir("a/"), file("b.txt", 10)]);
    assert_eq!(app.handle_key(Key::Down), Effect::Nothing);
    assert_eq!(app.items.selected, Some(0));
    assert_eq!(selected_label(&app), Some("a/".to_string()));
    let effect = app.handle_key(Key::Enter);
    assert_eq!(effect, Effect::Fetch(Navigation::Descend, "a/".to_string()));
    assert_eq!(app.complete(Navigation::Descend, Ok(vec![file("c.txt", 5)])), Ok(()));
    assert_eq!(app.items.current_path, "a/");
    assert_eq!(app.items.prev_path, "");
    assert_eq!(paths(&app), vec!["c.txt".to_string()]);
    assert_eq!(app.items.items[0].kind, EntryKind::File);
    assert_eq!(app.items.items[0].size, 5);
    assert_eq!(app.items.selected, None);
}

#[test]
fn scenario_filter_then_select() {
    let mut app = open(None, vec![file("abc", 1), file("xyz", 1)]);
    app.handle_key(Key::Char('f'));
    assert_eq!(app.mode, AppMode::FilterMode);
    app.handle_key(Key::Char('b'));
    assert_eq!(app.search_input, "b");
    app.handle_key(Key::Enter);
    let flags: Vec<bool> = app.items.items.iter().map(|e| e.is_matched).collect();
    assert_eq!(flags, vec![true, false]);
    app.handle_key(Key::Esc);
    assert_eq!(app.mode, AppMode::RegularMode);
    app.handle_key(Key::Down);
    assert_eq!(selected_label(&app), Some("abc".to_string()));
    app.handle_key(Key::Down);
    assert_eq!(selected_label(&app), Some("abc".to_string()));
}

#[test]
fn scenario_sort_by_path_toggles() {
    let mut app = open(None, vec![file("z", 1), file("a", 1)]);
    app.handle_key(Key::Char('s'));
    assert_eq!(app.mode, AppMode::SortMode);
    app.handle_key(Key::Char('p'));
    assert_eq!(paths(&app), vec!["a".to_string(), "z".to_string()]);
    assert_eq!(app.sort_config, Some(SortConfig { sort_key: SortKey::Path, ascending: true }));
    app.handle_key(Key::Char('p'));
    assert_eq!(paths(&app), vec!["z".to_string(), "a".to_string()]);
    assert_eq!(app.sort_config, Some(SortConfig { sort_key: SortKey::Path, ascending: false }));
}

#[test]
fn next_wraps_modulo_matched_length() {
    let mut app = open(None, vec![file("a", 1), file("b", 1), file("c", 1)]);
    let mut seen = Vec::new();
    for _ in 0..7 {
        app.handle_key(Key::Down);
        seen.push(app.items.selected.unwrap());
    }
    assert_eq!(seen, vec![0, 1, 2, 0, 1, 2, 0]);
}

#[test]
fn next_counts_only_matched_entries() {
    let mut app = open(None, vec![file("one", 1), file("two", 1), file("three", 1)]);
    app.search_input = "t".to_string();
    app.filter_for_search();
    app.items.selected = Some(1);
    app.items.next();
    assert_eq!(app.items.selected, Some(0));
    assert_eq!(selected_label(&app), Some("two".to_string()));
}

#[test]
fn previous_from_first_goes_to_last() {
    let mut app = open(None, vec![file("a", 1), file("b", 1), file("c", 1)]);
    app.handle_key(Key::Down);
    assert_eq!(app.items.selected, Some(0));
    app.handle_key(Key::Up);
    assert_eq!(app.items.selected, Some(2));
    app.handle_key(Key::Up);
    assert_eq!(app.items.selected, Some(1));
}

#[test]
fn previous_without_selection_stays_unselected() {
    let mut app = open(None, vec![file("a", 1)]);
    app.handle_key(Key::Up);
    assert_eq!(app.items.selected, None);
}

#[test]
fn selection_on_empty_listing_is_a_no_op() {
    let mut app = open(None, vec![]);
    app.handle_key(Key::Down);
    assert_eq!(app.items.selected, None);
    app.handle_key(Key::Up);
    assert_eq!(app.items.selected, None);
    assert_eq!(app.handle_key(Key::Char('c')), Effect::Nothing);
    assert_eq!(app.handle_key(Key::Enter), Effect::Nothing);
}

#[test]
fn stale_selection_after_filter_is_kept_and_resolves_to_nothing() {
    let mut app = open(None, vec![file("abc", 1), file("xyz", 1)]);
    app.items.selected = Some(1);
    app.search_input = "a".to_string();
    app.filter_for_search();
    assert_eq!(app.items.selected, Some(1));
    assert_eq!(selected_label(&app), None);
    app.items.next();
    assert_eq!(app.items.selected, Some(0));
    app.items.selected = Some(1);
    app.items.previous();
    assert_eq!(app.items.selected, Some(0));
}

#[test]
fn sorting_three_times_reverses_then_restores() {
    let mut app = open(None, vec![file("m", 1), file("c", 1), file("x", 1), file("a", 1)]);
    app.sort_items(SortKey::Path);
    let first = paths(&app);
    assert_eq!(first, vec!["a", "c", "m", "x"]);
    app.sort_items(SortKey::Path);
    let mut reversed = first.clone();
    reversed.reverse();
    assert_eq!(paths(&app), reversed);
    app.sort_items(SortKey::Path);
    assert_eq!(paths(&app), first);
}

#[test]
fn sort_by_last_modified_puts_missing_times_first() {
    let mut app = open(None, vec![file_at("new", 2_000_000_000), dir("d/"), file_at("old", 1_000_000_000)]);
    app.sort_items(SortKey::LastModified);
    assert_eq!(paths(&app), vec!["d/", "old", "new"]);
    assert_eq!(app.sort_config, Some(SortConfig { sort_key: SortKey::LastModified, ascending: true }));
    app.sort_items(SortKey::LastModified);
    assert_eq!(paths(&app), vec!["new", "old", "d/"]);
    app.sort_items(SortKey::Path);
    assert_eq!(paths(&app), vec!["d/", "new", "old"]);
    assert_eq!(app.sort_config, Some(SortConfig { sort_key: SortKey::Path, ascending: true }));
}

#[test]
fn sort_keeps_selection_index() {
    let mut app = open(None, vec![file("b", 1), file("a", 1)]);
    app.handle_key(Key::Down);
    assert_eq!(selected_label(&app), Some("b".to_string()));
    app.sort_items(SortKey::Path);
    assert_eq!(app.items.selected, Some(0));
    assert_eq!(selected_label(&app), Some("a".to_string()));
}

#[test]
fn equal_keys_keep_listing_order() {
    let mut app = open(None, vec![dir("b/"), dir("a/"), file_at("c", 5)]);
    app.sort_items(SortKey::LastModified);
    assert_eq!(paths(&app), vec!["b/", "a/", "c"]);
}

#[test]
fn empty_filter_matches_everything() {
    let mut app = open(None, vec![file("abc", 1), file("xyz", 1)]);
    app.search_input = "zzz".to_string();
    app.filter_for_search();
    assert!(app.items.items.iter().all(|e| !e.is_matched));
    app.delete_from_search();
    app.delete_from_search();
    app.delete_from_search();
    assert_eq!(app.search_input, "");
    app.delete_from_search();
    assert_eq!(app.search_input, "");
    app.filter_for_search();
    assert!(app.items.items.iter().all(|e| e.is_matched));
}

#[test]
fn filter_ignores_case() {
    let mut app = open(None, vec![file("Summary.CSV", 1), file("notes", 1)]);
    app.search_input = "uMm".to_string();
    app.filter_for_search();
    let flags: Vec<bool> = app.items.items.iter().map(|e| e.is_matched).collect();
    assert_eq!(flags, vec![true, false]);
}

#[test]
fn going_back_twice_ascends_one_level_each_time() {
    let mut app = open(Some("a/b/c/"), vec![]);
    assert_eq!(app.items.prev_path, "a/b/");
    assert_eq!(app.handle_key(Key::Left), Effect::Fetch(Navigation::GoBack, "a/b/".to_string()));
    assert_eq!(app.complete(Navigation::GoBack, Ok(vec![])), Ok(()));
    assert_eq!(app.items.current_path, "a/b/");
    assert_eq!(app.items.prev_path, "a/");
    assert_eq!(app.handle_key(Key::Left), Effect::Fetch(Navigation::GoBack, "a/".to_string()));
    assert_eq!(app.complete(Navigation::GoBack, Ok(vec![])), Ok(()));
    assert_eq!(app.items.current_path, "a/");
    assert_eq!(app.items.prev_path, "");
}

#[test]
fn reset_returns_to_the_root() {
    let mut app = open(Some("x/"), vec![dir("x/y/")]);
    app.handle_key(Key::Down);
    app.handle_key(Key::Right);
    app.complete(Navigation::Descend, Ok(vec![file("x/y/z", 3)])).unwrap();
    assert_eq!(app.items.current_path, "x/y/");
    assert_eq!(app.items.prev_path, "x/");
    assert_eq!(app.handle_key(Key::Char('r')), Effect::Fetch(Navigation::Reset, "x/".to_string()));
    app.complete(Navigation::Reset, Ok(vec![dir("x/y/")])).unwrap();
    assert_eq!(app.items.current_path, "x/");
    assert_eq!(app.items.prev_path, "");
    assert_eq!(app.items.root_path, "x/");
}

#[test]
fn descend_on_a_file_does_nothing() {
    let mut app = open(None, vec![file("b.txt", 10)]);
    app.handle_key(Key::Down);
    assert_eq!(app.handle_key(Key::Enter), Effect::Nothing);
    assert_eq!(app.items.refresh(Ok(vec![])), Ok(()));
    assert_eq!(paths(&app), vec!["b.txt"]);
}

#[test]
fn failed_listing_leaves_the_session_unchanged() {
    let err = ListingError { message: "denied".to_string() };
    assert_eq!(
        App::new("data".to_string(), None, Err(err.clone())).err(),
        Some(err.clone())
    );
    let mut app = open(Some("a/b/"), vec![dir("a/b/c/")]);
    app.handle_key(Key::Down);
    assert_eq!(app.complete(Navigation::Descend, Err(err.clone())), Err(err.clone()));
    assert_eq!(app.complete(Navigation::GoBack, Err(err.clone())), Err(err.clone()));
    assert_eq!(app.complete(Navigation::Reset, Err(err.clone())), Err(err));
    assert_eq!(app.items.current_path, "a/b/");
    assert_eq!(app.items.prev_path, "a/");
    assert_eq!(app.items.selected, Some(0));
    assert_eq!(paths(&app), vec!["a/b/c/"]);
}

#[test]
fn copy_builds_the_object_uri() {
    let mut app = open(Some("a/"), vec![file("a/b.txt", 3)]);
    assert_eq!(app.handle_key(Key::Char('c')), Effect::Nothing);
    app.handle_key(Key::Down);
    assert_eq!(app.handle_key(Key::Char('c')), Effect::Copy("s3://data/a/b.txt".to_string()));
    assert_eq!(app.items.copy(), Some("s3://data/a/b.txt".to_string()));
}

#[test]
fn quit_and_unknown_keys() {
    let mut app = open(None, vec![file("a", 1)]);
    assert_eq!(app.handle_key(Key::Char('q')), Effect::Quit);
    assert_eq!(app.handle_key(Key::Char('z')), Effect::Nothing);
    assert_eq!(app.handle_key(Key::Other), Effect::Nothing);
    app.handle_key(Key::Down);
    app.handle_key(Key::Esc);
    assert_eq!(app.items.selected, None);
    assert_eq!(app.mode, AppMode::RegularMode);
}

#[test]
fn filter_mode_editing() {
    let mut app = open(None, vec![file("a", 1)]);
    app.handle_key(Key::Char('f'));
    app.handle_key(Key::Char('q'));
    app.handle_key(Key::Char('x'));
    assert_eq!(app.search_input, "qx");
    app.handle_key(Key::Backspace);
    assert_eq!(app.search_input, "q");
    assert_eq!(app.mode, AppMode::FilterMode);
    app.handle_key(Key::Down);
    assert_eq!(app.mode, AppMode::RegularMode);
}

#[test]
fn key_table() {
    assert_eq!(route(AppMode::RegularMode, Key::Enter), Action::Descend);
    assert_eq!(route(AppMode::RegularMode, Key::Right), Action::Descend);
    assert_eq!(route(AppMode::RegularMode, Key::Left), Action::GoBack);
    assert_eq!(route(AppMode::RegularMode, Key::Esc), Action::Unselect);
    assert_eq!(route(AppMode::RegularMode, Key::Down), Action::SelectNext);
    assert_eq!(route(AppMode::RegularMode, Key::Up), Action::SelectPrevious);
    assert_eq!(route(AppMode::RegularMode, Key::Char('c')), Action::CopyUri);
    assert_eq!(route(AppMode::RegularMode, Key::Char('f')), Action::EnterFilterMode);
    assert_eq!(route(AppMode::RegularMode, Key::Char('s')), Action::EnterSortMode);
    assert_eq!(route(AppMode::RegularMode, Key::Char('r')), Action::Reset);
    assert_eq!(route(AppMode::RegularMode, Key::Char('q')), Action::Quit);
    assert_eq!(route(AppMode::RegularMode, Key::Backspace), Action::Ignore);
    assert_eq!(route(AppMode::FilterMode, Key::Char('q')), Action::AppendChar('q'));
    assert_eq!(route(AppMode::FilterMode, Key::Backspace), Action::DeleteChar);
    assert_eq!(route(AppMode::FilterMode, Key::Enter), Action::ApplyFilter);
    assert_eq!(route(AppMode::FilterMode, Key::Esc), Action::LeaveMode);
    assert_eq!(route(AppMode::FilterMode, Key::Down), Action::LeaveMode);
    assert_eq!(route(AppMode::FilterMode, Key::Up), Action::Ignore);
    assert_eq!(route(AppMode::SortMode, Key::Char('p')), Action::Sort(SortKey::Path));
    assert_eq!(route(AppMode::SortMode, Key::Char('d')), Action::Sort(SortKey::LastModified));
    assert_eq!(route(AppMode::SortMode, Key::Esc), Action::LeaveMode);
    assert_eq!(route(AppMode::SortMode, Key::Char('x')), Action::Ignore);
    assert_eq!(route(AppMode::SortMode, Key::Enter), Action::Ignore);
}
