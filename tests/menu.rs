use icedmenu::app::{Action, CursorMoveDirection, IcedMenu, Message, SelectionChange};
use icedmenu::callback::Callback;
use icedmenu::cli::{CaseSensitivity, CliArgs};
use icedmenu::item::{Item, ItemData};
use icedmenu::matcher::fuzzy_indices;

fn args(query: &str, max: usize, max_visible: usize) -> CliArgs {
    CliArgs {
        prompt: String::new(),
        query: String::from(query),
        file: None,
        theme: None,
        case: CaseSensitivity::Smart,
        max,
        max_visible,
        callback: None,
    }
}

fn corpus(keys: &[&str]) -> Vec<Item> {
    keys.iter()
        .enumerate()
        .map(|(i, k)| Item::new(i, ItemData { key: String::from(*k), value: None }))
        .collect()
}

fn static_menu(keys: &[&str], query: &str, max: usize, max_visible: usize) -> IcedMenu {
    IcedMenu::new(args(query, max, max_visible), corpus(keys), None)
}

fn close_text(action: Action) -> Option<String> {
    match action {
        Action::Close(text) => text,
        _ => panic!("expected the menu to close"),
    }
}

#[test]
fn score_ordering_keeps_matches_and_drops_banana() {
    let mut menu = static_menu(&["apple", "apricot", "banana"], "", 1, 10);
    menu.update(Message::QueryChanged(String::from("ap")));
    assert!(menu.visible_items.contains(&0));
    assert!(menu.visible_items.contains(&1));
    assert!(!menu.visible_items.contains(&2));
    assert_eq!(menu.visible_items.len(), 2);
    assert!(menu.items[0].score.is_some());
    assert!(menu.items[2].score.is_none());
    let s0 = menu.items[0].score.unwrap();
    let s1 = menu.items[1].score.unwrap();
    let first = menu.visible_items[0];
    assert!(if s0 == s1 { first == 0 } else { menu.items[first].score == Some(s0.max(s1)) });
}

#[test]
fn empty_query_shows_corpus_order() {
    let mut menu = static_menu(&["e", "d", "c", "b", "a"], "x", 1, 3);
    menu.update(Message::QueryChanged(String::new()));
    assert_eq!(menu.visible_items, vec![0, 1, 2]);
    assert!(menu.items.iter().all(|i| i.score.is_none() && i.match_indices.is_none()));
}

#[test]
fn empty_query_with_small_corpus_shows_everything() {
    let menu = static_menu(&["one", "two"], "", 1, 10);
    assert_eq!(menu.visible_items, vec![0, 1]);
}

#[test]
fn submit_emits_entry_under_cursor() {
    let mut menu = static_menu(&["a", "b", "c"], "", 1, 10);
    assert_eq!(menu.update(Message::CursorMoved(CursorMoveDirection::Down)), Action::Nothing);
    assert_eq!(menu.cursor_position, 1);
    let text = close_text(menu.update(Message::Submitted));
    assert_eq!(text, Some(String::from("b")));
}

#[test]
fn submit_prints_values_in_corpus_order() {
    let mut items = corpus(&["a", "b", "c"]);
    items[2].data.value = Some(String::from("third"));
    let mut menu = IcedMenu::new(args("", 3, 10), items, None);
    menu.update_selection(2, SelectionChange::Select);
    menu.update_selection(0, SelectionChange::Select);
    assert_eq!(menu.submit(), "a\nthird");
}

#[test]
fn cursor_wraps_both_ways() {
    let mut menu = static_menu(&["a", "b", "c"], "", 1, 10);
    menu.move_cursor(CursorMoveDirection::Up);
    assert_eq!(menu.cursor_position, 2);
    menu.move_cursor(CursorMoveDirection::Down);
    assert_eq!(menu.cursor_position, 0);
    menu.move_cursor(CursorMoveDirection::Down);
    menu.move_cursor(CursorMoveDirection::Up);
    assert_eq!(menu.cursor_position, 0);
    menu.move_cursor(CursorMoveDirection::Down);
    menu.move_cursor(CursorMoveDirection::Down);
    menu.move_cursor(CursorMoveDirection::Down);
    assert_eq!(menu.cursor_position, 0);
}

#[test]
fn cursor_move_on_empty_list_does_nothing() {
    let mut menu = static_menu(&["a"], "zzz", 1, 10);
    assert!(menu.visible_items.is_empty());
    menu.update(Message::CursorMoved(CursorMoveDirection::Down));
    assert_eq!(menu.cursor_position, 0);
}

#[test]
fn selection_stops_at_its_bound() {
    let mut menu = static_menu(&["a", "b", "c"], "", 1, 10);
    menu.update(Message::CursorSelectionToggled);
    menu.update(Message::CursorMoved(CursorMoveDirection::Down));
    menu.update(Message::CursorSelectionToggled);
    assert_eq!(menu.selected_items, vec![0]);
    assert!(menu.items[0].selected);
    assert!(!menu.items[1].selected);
}

#[test]
fn visible_list_stays_within_cap() {
    let mut menu = static_menu(&["a", "b", "c", "d", "e"], "", 2, 3);
    menu.update_selection(4, SelectionChange::Select);
    menu.update_selection(3, SelectionChange::Select);
    menu.update(Message::QueryChanged(String::from("x")));
    menu.update(Message::QueryChanged(String::new()));
    assert_eq!(menu.visible_items, vec![0, 4, 3]);
    assert!(menu.visible_items.len() <= 3);
    assert!(menu.selected_items.len() <= 2);
}

#[test]
fn toggle_deselects_a_selected_entry() {
    let mut menu = static_menu(&["a", "b", "c"], "", 3, 10);
    menu.update_selection(0, SelectionChange::Select);
    menu.update_selection(2, SelectionChange::Select);
    menu.update_selection(0, SelectionChange::Toggle);
    assert_eq!(menu.selected_items, vec![2]);
    assert!(!menu.items[0].selected);
    menu.update_selection(2, SelectionChange::Deselect);
    assert!(menu.selected_items.is_empty());
}

#[test]
fn selected_entries_keep_visibility_and_lose_score() {
    let mut menu = static_menu(&["apple", "banana"], "", 2, 10);
    menu.update_selection(1, SelectionChange::Select);
    menu.update(Message::QueryChanged(String::from("ap")));
    assert_eq!(menu.visible_items, vec![0, 1]);
    assert_eq!(menu.items[1].score, None);
}

#[test]
fn mouse_click_toggles_and_closes() {
    let mut menu = static_menu(&["a", "b", "c"], "", 1, 10);
    let text = close_text(menu.update(Message::MouseClicked(2)));
    assert_eq!(text, Some(String::from("c")));
    assert_eq!(menu.update(Message::MouseClicked(9)), Action::Nothing);
}

#[test]
fn quit_closes_without_output() {
    let mut menu = static_menu(&["a"], "", 1, 10);
    assert_eq!(close_text(menu.update(Message::Quit)), None);
}

#[test]
fn query_change_with_callback_asks_for_fetch() {
    let mut a = args("", 1, 10);
    a.callback = Some(vec![String::from("cmd")]);
    let callback = Callback::new(vec![String::from("cmd")]);
    let mut menu = IcedMenu::new(a, corpus(&["x"]), Some(callback));
    assert_eq!(menu.update(Message::QueryChanged(String::from("q"))), Action::Fetch);
    assert_eq!(menu.query, "q");
}

#[test]
fn selection_survives_requery() {
    let callback = Callback::new(vec![String::from("cmd")]);
    let mut menu = IcedMenu::new(args("", 2, 3), corpus(&["x", "K", "y"]), Some(callback));
    assert_eq!(menu.visible_items, vec![0, 1, 2]);
    menu.update_selection(1, SelectionChange::Select);
    let action = menu.receive_items(corpus(&["p", "q", "r", "s"]));
    assert_eq!(action, Action::Nothing);
    let keys: Vec<&str> = menu.items.iter().map(|i| i.data.key.as_str()).collect();
    assert_eq!(keys, vec!["p", "q", "K"]);
    assert_eq!(menu.selected_items, vec![2]);
    assert!(menu.items[2].selected);
    menu.receive_items(corpus(&["K", "z"]));
    let keys: Vec<&str> = menu.items.iter().map(|i| i.data.key.as_str()).collect();
    assert_eq!(keys, vec!["z", "K"]);
    assert_eq!(menu.selected_items, vec![1]);
    assert_eq!(menu.visible_items, vec![0, 1]);
}

#[test]
fn requery_caps_new_entries_at_zero_when_selection_is_full() {
    let callback = Callback::new(vec![String::from("cmd")]);
    let mut menu = IcedMenu::new(args("", 3, 2), corpus(&["a", "b"]), Some(callback));
    menu.update_selection(0, SelectionChange::Select);
    menu.update_selection(1, SelectionChange::Select);
    let action = menu.receive_items(corpus(&["c", "d"]));
    assert_eq!(action, Action::Nothing);
    let keys: Vec<&str> = menu.items.iter().map(|i| i.data.key.as_str()).collect();
    assert_eq!(keys, vec!["a", "b"]);
}

#[test]
fn callback_substitutes_the_query() {
    let callback = Callback::new(vec![String::from("grep"), String::from("-i"), String::from("$QUERY"), String::from("f")]);
    assert_eq!(callback.program, "grep");
    assert_eq!(callback.args_for("needle"), vec!["-i", "needle", "f"]);
    assert_eq!(callback.args_for(""), vec!["-i", "", "f"]);
}

#[test]
fn fuzzy_match_reports_positions() {
    let (_, positions) = fuzzy_indices(CaseSensitivity::Smart, "apple", "ap").unwrap();
    assert_eq!(positions, vec![0, 1]);
    assert!(fuzzy_indices(CaseSensitivity::Smart, "banana", "ap").is_none());
    assert!(fuzzy_indices(CaseSensitivity::Respect, "Apple", "ap").is_none());
    assert!(fuzzy_indices(CaseSensitivity::Ignore, "Apple", "ap").is_some());
    assert!(fuzzy_indices(CaseSensitivity::Smart, "apple", "Ap").is_none());
}

#[test]
fn match_positions_follow_the_query() {
    let mut menu = static_menu(&["apple", "banana"], "", 2, 10);
    menu.update(Message::QueryChanged(String::from("ap")));
    assert_eq!(menu.items[0].match_indices, Some(vec![0, 1]));
    assert_eq!(menu.items[1].match_indices, None);
    menu.update(Message::QueryChanged(String::new()));
    assert!(menu.items.iter().all(|i| i.match_indices.is_none() && i.score.is_none()));
}

#[test]
fn carried_entries_keep_their_match_positions() {
    let callback = Callback::new(vec![String::from("cmd")]);
    let mut menu = IcedMenu::new(args("", 1, 3), corpus(&["K"]), Some(callback));
    menu.update_selection(0, SelectionChange::Select);
    menu.items[0].match_indices = Some(vec![0]);
    menu.receive_items(corpus(&["a"]));
    assert_eq!(menu.items[1].data.key, "K");
    assert_eq!(menu.items[1].match_indices, Some(vec![0]));
}
