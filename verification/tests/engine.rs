//! The ranking and partition engine on concrete entries.

use gyr::xdg::App;
use gyr::ui::{sort_entries, UI};

fn entry(name: &str, score: i64, history: u64) -> App {
    let mut a = App::new(
        name.to_string(),
        "run".to_string(),
        String::new(),
        false,
        None,
    );
    a.score = score;
    a.history = history;
    a
}

#[test]
fn corrected_score_mixes_history_and_score() {
    let a = entry("A", 10, 0);
    let b = entry("B", 1, 5);
    assert_eq!(a.corrected_score(), 10);
    assert_eq!(b.corrected_score(), 5);
    // history multiplies a meaningful score
    let c = entry("C", 3, 4);
    assert_eq!(c.corrected_score(), 12);
    // history alone ranks a zero score
    let d = entry("D", 0, 7);
    assert_eq!(d.corrected_score(), 7);
}

#[test]
fn higher_corrected_score_ranks_first() {
    // raw scores 10 and 1, launch counts 0 and 5: corrected 10 and 5
    let sorted = sort_entries(vec![entry("B", 1, 5), entry("A", 10, 0)]);
    assert_eq!(sorted[0].name, "A");
    assert_eq!(sorted[1].name, "B");
}

#[test]
fn equal_scores_sort_by_name() {
    let sorted = sort_entries(vec![
        entry("banana", 1, 0),
        entry("apple", 1, 0),
        entry("cherry", 1, 0),
    ]);
    let names: Vec<&str> = sorted.iter().map(|a| a.name.as_str()).collect();
    assert_eq!(names, vec!["apple", "banana", "cherry"]);
}

#[test]
fn name_tie_break_ignores_case() {
    // by raw code points "B" would come first; the fold puts "a" first
    let sorted = sort_entries(vec![entry("B", 1, 0), entry("a", 1, 0)]);
    let names: Vec<&str> = sorted.iter().map(|a| a.name.as_str()).collect();
    assert_eq!(names, vec!["a", "B"]);
}

#[test]
fn names_equal_under_the_fold_keep_their_order() {
    let sorted = sort_entries(vec![entry("foo", 1, 0), entry("Foo", 1, 0)]);
    let names: Vec<&str> = sorted.iter().map(|a| a.name.as_str()).collect();
    assert_eq!(names, vec!["foo", "Foo"]);
    let swapped = sort_entries(vec![entry("Foo", 1, 0), entry("foo", 1, 0)]);
    let names2: Vec<&str> = swapped.iter().map(|a| a.name.as_str()).collect();
    assert_eq!(names2, vec!["Foo", "foo"]);
}

#[test]
fn new_ui_starts_on_first_entry() {
    let ui = UI::new(vec![entry("A", 0, 0), entry("B", 0, 0)]);
    assert_eq!(ui.selected, Some(0));
    assert_eq!(ui.shown.len(), 2);
    assert!(ui.hidden.is_empty());
    assert!(ui.query.is_empty());
}

#[test]
fn new_ui_of_nothing_selects_nothing() {
    let ui = UI::new(vec![]);
    assert_eq!(ui.selected, None);
}

#[test]
fn empty_query_matches_everything() {
    let mut ui = UI::new(vec![entry("Firefox", 0, 0), entry("Files", 0, 0)]);
    ui.take_in(entry("Terminal", 0, 0));
    ui.set_query(String::new());
    assert_eq!(ui.shown.len(), 3);
    assert!(ui.hidden.is_empty());
    // the empty pattern matches everything with score 0, so history
    // alone orders the unfiltered list
    assert!(ui.shown.iter().all(|a| a.score == 0));
}

#[test]
fn query_partitions_entries() {
    let mut ui = UI::new(vec![
        entry("Firefox", 0, 0),
        entry("Files", 0, 0),
        entry("Terminal", 0, 0),
    ]);
    ui.set_query("fi".to_string());
    let shown: Vec<&str> = ui.shown.iter().map(|a| a.name.as_str()).collect();
    assert_eq!(shown.len(), 2);
    assert!(shown.contains(&"Firefox"));
    assert!(shown.contains(&"Files"));
    assert_eq!(ui.hidden.len(), 1);
    assert_eq!(ui.hidden[0].name, "Terminal");
    // an excluded entry carries score 0
    assert_eq!(ui.hidden[0].score, 0);
    // a matching entry carries a fresh positive score
    assert!(ui.shown[0].score > 0);
}

#[test]
fn excluded_entries_return_when_they_match_again() {
    let mut ui = UI::new(vec![entry("Firefox", 0, 0), entry("Terminal", 0, 0)]);
    ui.set_query("fire".to_string());
    assert_eq!(ui.shown.len(), 1);
    ui.set_query(String::new());
    assert_eq!(ui.shown.len(), 2);
    assert!(ui.hidden.is_empty());
}

#[test]
fn set_query_twice_gives_the_same_order() {
    let mut ui = UI::new(vec![
        entry("Files", 0, 3),
        entry("Firefox", 0, 1),
        entry("Fireworks", 0, 0),
        entry("Terminal", 0, 9),
    ]);
    ui.set_query("fi".to_string());
    let first: Vec<String> = ui.shown.iter().map(|a| a.name.clone()).collect();
    let first_hidden: Vec<String> = ui.hidden.iter().map(|a| a.name.clone()).collect();
    ui.set_query("fi".to_string());
    let second: Vec<String> = ui.shown.iter().map(|a| a.name.clone()).collect();
    let second_hidden: Vec<String> = ui.hidden.iter().map(|a| a.name.clone()).collect();
    assert_eq!(first, second);
    assert_eq!(first_hidden, second_hidden);
}

#[test]
fn history_boosts_ranking_on_empty_query() {
    let mut ui = UI::new(vec![
        entry("Rarely", 0, 1),
        entry("Often", 0, 9),
        entry("Sometimes", 0, 4),
    ]);
    ui.set_query(String::new());
    let names: Vec<&str> = ui.shown.iter().map(|a| a.name.as_str()).collect();
    assert_eq!(names, vec!["Often", "Sometimes", "Rarely"]);
}

#[test]
fn filter_resets_cursor_to_first() {
    let mut ui = UI::new(vec![entry("A", 0, 0), entry("B", 0, 0), entry("C", 0, 0)]);
    ui.select_next(true);
    assert_eq!(ui.selected, Some(1));
    ui.set_query(String::new());
    assert_eq!(ui.selected, Some(0));
}

#[test]
fn filter_with_no_match_selects_nothing() {
    let mut ui = UI::new(vec![entry("Alpha", 0, 0)]);
    ui.set_query("zzzz".to_string());
    assert_eq!(ui.shown.len(), 0);
    assert_eq!(ui.selected, None);
}

#[test]
fn cursor_wraps_forward_and_backward() {
    let mut ui = UI::new(vec![entry("A", 0, 0), entry("B", 0, 0)]);
    ui.select_next(true);
    assert_eq!(ui.selected, Some(1));
    ui.select_next(true);
    assert_eq!(ui.selected, Some(0));
    ui.select_prev(true);
    assert_eq!(ui.selected, Some(1));
}

#[test]
fn cursor_clamps_without_wrap() {
    let mut ui = UI::new(vec![entry("A", 0, 0), entry("B", 0, 0)]);
    ui.select_prev(false);
    assert_eq!(ui.selected, Some(0));
    ui.select_next(false);
    ui.select_next(false);
    assert_eq!(ui.selected, Some(1));
}

#[test]
fn cursor_jumps_to_ends() {
    let mut ui = UI::new(vec![entry("A", 0, 0), entry("B", 0, 0), entry("C", 0, 0)]);
    ui.select_last();
    assert_eq!(ui.selected, Some(2));
    ui.select_first();
    assert_eq!(ui.selected, Some(0));
}

#[test]
fn info_shows_name_and_description_by_default() {
    let mut a = entry("Foo", 0, 0);
    a.description = "Does things".to_string();
    let mut ui = UI::new(vec![a]);
    ui.info();
    assert_eq!(ui.text, vec!["Foo".to_string(), "Does things".to_string()]);
}

#[test]
fn info_adds_command_from_verbosity_one() {
    let mut a = entry("Foo", 10, 5);
    a.description = "Does things".to_string();
    let mut ui = UI::new(vec![a]);
    ui.verbosity(1);
    ui.info();
    assert_eq!(
        ui.text,
        vec![
            "Foo".to_string(),
            "Does things".to_string(),
            String::new(),
            "Exec: run".to_string(),
        ]
    );
}

#[test]
fn info_adds_command_and_counters_with_verbosity() {
    let mut a = entry("Foo", 10, 5);
    a.description = "Does things".to_string();
    a.is_terminal = true;
    let mut ui = UI::new(vec![a]);
    ui.verbosity(2);
    ui.info();
    assert_eq!(
        ui.text,
        vec![
            "Foo".to_string(),
            "Does things".to_string(),
            String::new(),
            "Exec (terminal): run".to_string(),
            "Times run: 5".to_string(),
            "\nMatching score: 10".to_string(),
        ]
    );
}

#[test]
fn info_without_selection_is_empty() {
    let mut ui = UI::new(vec![]);
    ui.info();
    assert!(ui.text.is_empty());
}

#[test]
fn negative_score_renders_with_sign() {
    let mut a = entry("Foo", -3, 0);
    a.description = String::new();
    let mut ui = UI::new(vec![a]);
    ui.verbosity(2);
    ui.info();
    assert_eq!(ui.text[5], "\nMatching score: -3");
}

#[test]
fn end_to_end_two_descriptors_with_one_action() {
    let with_action = "[Desktop Entry]\nName=Mail\nExec=mail %u\nActions=compose\n[Desktop Action compose]\nName=Compose\nExec=mail --compose\n";
    let plain = "[Desktop Entry]\nName=Clock\nExec=clock\n";
    let mut entries = gyr::xdg::discover_entries(with_action);
    entries.extend(gyr::xdg::discover_entries(plain));
    assert_eq!(entries.len(), 3);
    let mut ui = UI::new(entries);
    // a substring of the action's synthesized name "Mail (Compose)"
    ui.set_query("compo".to_string());
    assert_eq!(ui.matching().len(), 1);
    assert_eq!(ui.matching()[0].name, "Mail (Compose)");
}

#[test]
fn extreme_counters_rank_without_overflow() {
    // ranking compares corrected scores in wide arithmetic, so entries
    // whose score-times-history product exceeds the narrow range still sort
    let sorted = sort_entries(vec![
        entry("huge", i64::MAX, u64::MAX),
        entry("small", 1, 1),
        entry("negative", i64::MIN, 0),
    ]);
    assert_eq!(sorted[0].name, "huge");
    assert_eq!(sorted[1].name, "small");
    assert_eq!(sorted[2].name, "negative");
}

#[test]
fn duplicate_names_keep_their_order() {
    // two entries may legitimately share a name; re-sorting is a no-op
    let mut first = entry("Editor", 0, 2);
    first.command = "editor-a".to_string();
    let mut second = entry("Editor", 0, 2);
    second.command = "editor-b".to_string();
    let sorted = sort_entries(vec![first, second]);
    assert_eq!(sorted[0].command, "editor-a");
    assert_eq!(sorted[1].command, "editor-b");
    let again = sort_entries(sorted);
    assert_eq!(again[0].command, "editor-a");
    assert_eq!(again[1].command, "editor-b");
}

#[test]
fn events_carry_keys_or_ticks() {
    let e: gyr::input::Event<char> = gyr::input::Event::Input('a');
    match e {
        gyr::input::Event::Input(c) => assert_eq!(c, 'a'),
        gyr::input::Event::Tick => unreachable!(),
    }
    let t: gyr::input::Event<char> = gyr::input::Event::Tick;
    assert!(matches!(t, gyr::input::Event::Tick));
}
