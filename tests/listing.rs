use file_counter::cache::CensusCache;
use file_counter::census::{Census, EntryKind};
use file_counter::engine::{Action, App, RawEntry, PARENT_LABEL, UNKNOWN_NAME};
use file_counter::layout::{calculate_wrapped_height, wrapped_height};
use file_counter::order::{entry_precedes, lex_less, sort_entries, DirEntry};

fn dir(name: &str, count: Option<usize>) -> DirEntry {
    DirEntry { name: name.to_string(), path: format!("/p/{}", name), is_dir: true, file_count: count }
}

fn file(name: &str) -> DirEntry {
    DirEntry { name: name.to_string(), path: format!("/p/{}", name), is_dir: false, file_count: None }
}

fn raw(path: &str, is_dir: bool) -> RawEntry {
    let name = path.rsplit('/').next().unwrap().to_string();
    RawEntry { name: Some(name), path: path.to_string(), is_dir }
}

fn names(items: &[DirEntry]) -> Vec<String> {
    items.iter().map(|e| e.name.clone()).collect()
}

#[test]
fn sort_by_count_then_name_dirs_first() {
    let v = vec![dir("A", Some(5)), dir("B", Some(5)), dir("C", Some(10)), file("d.txt")];
    let r = sort_entries(v);
    assert_eq!(names(&r), vec!["C", "A", "B", "d.txt"]);
}

#[test]
fn unknown_count_after_known_count() {
    let v = vec![dir("Z", None), dir("A", Some(0))];
    let r = sort_entries(v);
    assert_eq!(names(&r), vec!["A", "Z"]);
    let v = vec![dir("A", None), dir("Z", Some(0))];
    assert_eq!(names(&sort_entries(v)), vec!["Z", "A"]);
}

#[test]
fn sorting_sorted_listing_keeps_order() {
    let v = vec![dir("b", Some(3)), dir("A", None), file("x"), file("Y")];
    let once = sort_entries(v);
    let first = names(&once);
    let twice = sort_entries(once);
    assert_eq!(names(&twice), first);
    assert_eq!(first, vec!["b", "A", "x", "Y"]);
}

#[test]
fn files_sort_case_insensitively() {
    let v = vec![file("beta"), file("Alpha"), file("alpha2"), dir("zeta", None)];
    assert_eq!(names(&sort_entries(v)), vec!["zeta", "Alpha", "alpha2", "beta"]);
}

#[test]
fn empty_listing_sorts_to_empty() {
    assert!(sort_entries(Vec::new()).is_empty());
}

#[test]
fn name_order_is_lexicographic() {
    assert!(lex_less("a", "b"));
    assert!(!lex_less("b", "a"));
    assert!(lex_less("ab", "abc"));
    assert!(!lex_less("abc", "abc"));
    assert!(!lex_less("", ""));
    assert!(lex_less("", "a"));
}

#[test]
fn precedes_uses_lowercase_names() {
    assert!(entry_precedes(&file("apple"), &file("Banana")));
    assert!(!entry_precedes(&file("Banana"), &file("apple")));
    assert!(entry_precedes(&dir("z", Some(1)), &file("a")));
}

#[test]
fn cache_insert_twice_and_overwrite() {
    let mut c = CensusCache::new();
    assert_eq!(c.get(&"/a".to_string()), None);
    c.insert("/a".to_string(), 4);
    c.insert("/a".to_string(), 4);
    assert_eq!(c.get(&"/a".to_string()), Some(4));
    c.insert("/a".to_string(), 9);
    assert_eq!(c.get(&"/a".to_string()), Some(9));
    assert_eq!(c.get(&"/b".to_string()), None);
}

fn home_listing() -> Vec<RawEntry> {
    vec![raw("/proj/README", false), raw("/proj/docs", true), raw("/proj/src", true)]
}

#[test]
fn new_dispatches_current_and_each_dir() {
    let (app, jobs) = App::new("/proj".to_string(), home_listing());
    assert_eq!(jobs, vec!["/proj", "/proj/docs", "/proj/src"]);
    assert!(!app.pinned_parent);
    assert_eq!(app.items.len(), 3);
    assert_eq!(app.selected, Some(0));
    assert_eq!(app.current_dir_count, None);
}

#[test]
fn end_to_end_counts_enter_and_home() {
    let (mut app, _jobs) = App::new("/proj".to_string(), home_listing());
    assert!(app.merge_count_update("/proj/docs".to_string(), 3));
    assert!(app.merge_count_update("/proj/src".to_string(), 10));
    assert!(app.merge_count_update("/proj".to_string(), 13));
    app.resort();
    assert_eq!(names(&app.items), vec!["src", "docs", "README"]);
    assert_eq!(app.current_dir_count, Some(13));

    assert!(app.enter(0));
    assert_eq!(app.current_dir, "/proj/src");
    let jobs = app.refresh_items(vec![raw("/proj/src/main.rs", false)]);
    assert!(jobs.is_empty());
    assert!(app.pinned_parent);
    assert_eq!(app.items[0].name, PARENT_LABEL);
    assert_eq!(app.items[0].path, "/proj");
    assert_eq!(app.items[0].file_count, Some(13));
    assert_eq!(app.current_dir_count, Some(10));

    app.go_home();
    assert_eq!(app.current_dir, "/proj");
    let jobs = app.refresh_items(home_listing());
    assert!(jobs.is_empty());
    assert!(!app.pinned_parent);
    assert_eq!(names(&app.items), vec!["src", "docs", "README"]);
}

#[test]
fn parent_row_stays_first_and_is_counted() {
    let (mut app, _) = App::new("/proj".to_string(), home_listing());
    app.current_dir = "/proj/src".to_string();
    let jobs = app.refresh_items(vec![raw("/proj/src/b", true), raw("/proj/src/a", true)]);
    assert_eq!(jobs, vec!["/proj/src", "/proj", "/proj/src/b", "/proj/src/a"]);
    assert_eq!(names(&app.items), vec![PARENT_LABEL, "a", "b"]);
    app.merge_count_update("/proj/src/b".to_string(), 2);
    app.resort();
    assert_eq!(names(&app.items), vec![PARENT_LABEL, "b", "a"]);
}

#[test]
fn enter_ignores_files_and_out_of_range() {
    let (mut app, _) = App::new("/proj".to_string(), home_listing());
    let readme = app.items.iter().position(|e| !e.is_dir).unwrap();
    assert!(!app.enter(readme));
    assert_eq!(app.current_dir, "/proj");
    assert!(!app.enter(3));
    assert!(!app.enter(usize::MAX));
    assert_eq!(app.current_dir, "/proj");
    let docs = app.items.iter().position(|e| e.name == "docs").unwrap();
    assert!(app.enter(docs));
    assert_eq!(app.current_dir, "/proj/docs");
    app.refresh_items(vec![]);
    assert_eq!(app.items.len(), 1);
    assert_eq!(app.items[0].path, "/proj");
}

#[test]
fn selection_wraps_both_ways() {
    let (mut app, _) = App::new("/proj".to_string(), home_listing());
    app.selected = Some(2);
    app.next();
    assert_eq!(app.selected, Some(0));
    app.previous();
    assert_eq!(app.selected, Some(2));
    app.previous();
    assert_eq!(app.selected, Some(1));
    app.next();
    assert_eq!(app.selected, Some(2));
}

#[test]
fn selection_on_empty_listing_is_noop() {
    let (mut app, _) = App::new("/empty".to_string(), vec![]);
    assert_eq!(app.selected, None);
    app.next();
    assert_eq!(app.selected, None);
    app.previous();
    assert_eq!(app.selected, None);
}

#[test]
fn selection_clamped_on_refresh() {
    let (mut app, _) = App::new("/proj".to_string(), home_listing());
    app.selected = Some(2);
    app.refresh_items(vec![raw("/proj/docs", true)]);
    assert_eq!(app.selected, Some(0));
}

#[test]
fn merge_for_invisible_path_only_fills_cache() {
    let (mut app, _) = App::new("/proj".to_string(), home_listing());
    assert!(!app.merge_count_update("/elsewhere".to_string(), 7));
    assert_eq!(app.cache.get(&"/elsewhere".to_string()), Some(7));
}

#[test]
fn undecodable_name_gets_placeholder() {
    let entry = RawEntry { name: None, path: "/proj/x".to_string(), is_dir: false };
    let (app, jobs) = App::new("/proj".to_string(), vec![entry]);
    assert_eq!(app.items[0].name, UNKNOWN_NAME);
    assert_eq!(jobs, vec!["/proj"]);
}

#[test]
fn click_and_enter_key_queue_action() {
    let (mut app, _) = App::new("/proj".to_string(), home_listing());
    assert!(!app.activate_row(3));
    assert!(app.action_pending.is_none());
    assert!(app.activate_row(1));
    assert_eq!(app.selected, Some(1));
    assert!(matches!(app.action_pending, Some(Action::EnterDirectory(1))));
    let target = app.items[1].path.clone();
    assert!(app.process_pending());
    assert_eq!(app.current_dir, target);
    assert!(app.action_pending.is_none());
    assert!(!app.process_pending());
    app.selected = Some(0);
    app.request_enter_selected();
    assert!(matches!(app.action_pending, Some(Action::EnterDirectory(0))));
}

#[test]
fn census_counts_files_and_skips_cycle() {
    // root holds two files and a link back to itself
    let mut c = Census::new("/r".to_string());
    let mut steps = 0;
    while let Some(d) = c.next_dir() {
        steps += 1;
        assert!(steps < 10);
        let canon = if d == "/r/loop" { "/r".to_string() } else { d.clone() };
        if !c.visit(canon) {
            continue;
        }
        c.record(EntryKind::File);
        c.record(EntryKind::File);
        c.record(EntryKind::Dir("/r/loop".to_string()));
        c.record(EntryKind::Other);
    }
    assert_eq!(c.count, 2);
    assert_eq!(steps, 2);
}

#[test]
fn census_counts_shared_directory_once() {
    let mut c = Census::new("/r".to_string());
    assert!(c.visit("/r".to_string()));
    assert!(c.visit("/real".to_string()));
    assert!(!c.visit("/real".to_string()));
    assert!(!c.visit("/r".to_string()));
}

#[test]
fn wrapped_height_formula() {
    assert_eq!(wrapped_height(&vec![0, 10, 11, 20], 10), 1 + 1 + 2 + 2);
    assert_eq!(wrapped_height(&vec![], 10), 0);
    assert_eq!(wrapped_height(&vec![usize::MAX, usize::MAX], 1), u16::MAX);
}

#[test]
fn wrapped_height_of_text() {
    assert_eq!(calculate_wrapped_height("abcdef\n\nxy", 4), 2 + 1 + 1);
    assert_eq!(calculate_wrapped_height("", 4), 0);
    assert_eq!(calculate_wrapped_height("日本語", 4), 2);
}
