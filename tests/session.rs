use apisnip::catalog::{Endpoint, Status};
use apisnip::color::{calculate_dimmed_color, hex_to_rgb, rgb_to_indexed, Mode};
use apisnip::event::{handle_key, handle_mouse, Key, KeyAction, KeyInput, MouseKind};
use apisnip::format::{detect_format, Args, FileFormat};
use apisnip::model::{calculate_visible_table_rows, hit_test, update, Action, AppModel, Message, RunningState};
use apisnip::search::{rank_matches, sort_items_selected_first};

fn endpoint(path: &str, description: &str, status: Status) -> Endpoint {
    Endpoint {
        methods: Vec::new(),
        path: path.to_string(),
        description: description.to_string(),
        refs: Vec::new(),
        status,
        parameters: Vec::new(),
    }
}

fn paths(items: &[Endpoint]) -> Vec<&str> {
    items.iter().map(|e| e.path.as_str()).collect()
}

fn session() -> AppModel {
    AppModel::new(vec![
        endpoint("/orders", "Place an order", Status::Unselected),
        endpoint("/pets", "List all pets", Status::Unselected),
        endpoint("/pets/{id}", "Show one pet", Status::Unselected),
        endpoint("/users", "List users", Status::Unselected),
    ])
}

fn status_of(items: &[Endpoint], path: &str) -> Status {
    items.iter().find(|e| e.path == path).unwrap().status
}

#[test]
fn new_session_starts_on_first_row() {
    let m = session();
    assert_eq!(m.selected, Some(0));
    assert_eq!(m.running_state, RunningState::Running);
    assert_eq!(AppModel::new(Vec::new()).selected, None);
}

#[test]
fn cursor_moves_and_clamps() {
    let mut m = session();
    update(&mut m, Message::SelectPrevious);
    assert_eq!(m.selected, Some(0));
    update(&mut m, Message::SelectNext);
    update(&mut m, Message::ScrollDown);
    assert_eq!(m.selected, Some(2));
    update(&mut m, Message::SelectNext);
    update(&mut m, Message::SelectNext);
    assert_eq!(m.selected, Some(3));
    update(&mut m, Message::ScrollUp);
    assert_eq!(m.selected, Some(2));
    update(&mut m, Message::GoToTop);
    assert_eq!((m.selected, m.offset), (Some(0), 0));
}

#[test]
fn paging_moves_by_visible_rows() {
    let mut m = session();
    m.table_height = Some(5);
    update(&mut m, Message::SelectNextPage);
    assert_eq!(m.selected, Some(2));
    update(&mut m, Message::SelectNextPage);
    assert_eq!(m.selected, Some(3));
    update(&mut m, Message::SelectPreviousPage);
    assert_eq!(m.selected, Some(1));
    update(&mut m, Message::SelectPreviousPage);
    assert_eq!(m.selected, Some(0));
}

#[test]
fn go_to_bottom_sets_cursor_and_offset() {
    let mut m = session();
    m.table_height = Some(5);
    update(&mut m, Message::GoToBottom);
    assert_eq!((m.selected, m.offset), (Some(3), 2));
}

#[test]
fn visible_rows_and_hit_test() {
    assert_eq!(calculate_visible_table_rows(10, None), 1);
    assert_eq!(calculate_visible_table_rows(10, Some(2)), 0);
    assert_eq!(calculate_visible_table_rows(10, Some(8)), 5);
    assert_eq!(calculate_visible_table_rows(3, Some(8)), 3);
    assert_eq!(hit_test(1, 0, 2, Some(10)), None);
    assert_eq!(hit_test(2, 0, 2, Some(10)), Some(0));
    assert_eq!(hit_test(5, 4, 2, Some(10)), Some(7));
    assert_eq!(hit_test(9, 0, 2, Some(10)), Some(7));
    assert_eq!(hit_test(10, 0, 2, Some(10)), None);
    assert_eq!(hit_test(2, usize::MAX, 3, Some(10)), None);
}

#[test]
fn clicking_a_row_moves_the_cursor() {
    let mut m = session();
    m.table_height = Some(10);
    update(&mut m, Message::SelectRow(4));
    assert_eq!(m.selected, Some(2));
    update(&mut m, Message::SelectRow(9));
    assert_eq!(m.selected, Some(2));
    update(&mut m, Message::SelectRow(0));
    assert_eq!(m.selected, Some(2));
}

#[test]
fn toggle_moves_selected_to_top_and_follows_next_row() {
    let mut m = session();
    update(&mut m, Message::SelectNext);
    update(&mut m, Message::SelectNext);
    assert_eq!(update(&mut m, Message::ToggleSelectItemAndSelectNext), Action::Nothing);
    assert_eq!(paths(&m.table_items), vec!["/pets/{id}", "/orders", "/pets", "/users"]);
    assert_eq!(m.table_items[0].status, Status::Selected);
    assert_eq!(m.selected, Some(3));
    update(&mut m, Message::ToggleSelectItemAndSelectNext);
    assert_eq!(paths(&m.table_items), vec!["/pets/{id}", "/users", "/orders", "/pets"]);
    assert_eq!(m.selected, Some(1));
    update(&mut m, Message::GoToTop);
    update(&mut m, Message::ToggleSelectItemAndSelectNext);
    assert_eq!(paths(&m.table_items), vec!["/users", "/orders", "/pets", "/pets/{id}"]);
    assert_eq!(status_of(&m.table_items, "/pets/{id}"), Status::Unselected);
    assert_eq!(m.selected, Some(0));
}

#[test]
fn search_filters_by_path_and_description() {
    let mut m = session();
    update(&mut m, Message::ShowSearch);
    assert!(m.search_active);
    update(&mut m, Message::KeyPress("PET".to_string()));
    let shown = paths(&m.table_items);
    assert!(shown.contains(&"/pets"));
    assert!(shown.contains(&"/pets/{id}"));
    assert!(!shown.contains(&"/users"));
    assert!(!shown.contains(&"/orders"));
    assert_eq!(m.selected, Some(0));
    update(&mut m, Message::KeyPress("zzzz".to_string()));
    assert!(m.table_items.is_empty());
    assert_eq!(m.selected, None);
    update(&mut m, Message::ClearSearch);
    assert_eq!(paths(&m.table_items), vec!["/orders", "/pets", "/pets/{id}", "/users"]);
    assert_eq!(m.selected, Some(0));
}

#[test]
fn clearing_the_query_restores_the_full_order() {
    let mut m = session();
    update(&mut m, Message::SelectNext);
    update(&mut m, Message::ToggleSelectItemAndSelectNext);
    let before: Vec<String> = m.table_items.iter().map(|e| e.path.clone()).collect();
    update(&mut m, Message::ShowSearch);
    update(&mut m, Message::KeyPress("u".to_string()));
    update(&mut m, Message::KeyPress("us".to_string()));
    update(&mut m, Message::KeyPress(String::new()));
    let after: Vec<String> = m.table_items.iter().map(|e| e.path.clone()).collect();
    assert_eq!(before, after);
    assert_eq!(status_of(&m.table_items, "/pets"), Status::Selected);
}

#[test]
fn toggle_during_search_survives_clearing() {
    let mut m = session();
    update(&mut m, Message::ShowSearch);
    update(&mut m, Message::KeyPress("users".to_string()));
    assert_eq!(paths(&m.table_items)[0], "/users");
    update(&mut m, Message::ToggleSelectItemAndSelectNext);
    assert_eq!(m.table_items[0].status, Status::Selected);
    update(&mut m, Message::ClearSearch);
    assert_eq!(status_of(&m.table_items, "/users"), Status::Selected);
    assert_eq!(m.table_items[0].path, "/users");
    update(&mut m, Message::HideSearch);
    assert!(!m.search_active);
    assert_eq!(status_of(&m.table_items, "/users"), Status::Selected);
    assert_eq!(m.table_items[0].path, "/users");
}

#[test]
fn hide_search_keeps_cursor_on_same_endpoint() {
    let mut m = session();
    update(&mut m, Message::ShowSearch);
    update(&mut m, Message::KeyPress("one pet".to_string()));
    assert_eq!(m.table_items[0].path, "/pets/{id}");
    update(&mut m, Message::HideSearch);
    assert_eq!(m.selected, Some(2));
    assert_eq!(m.table_items.len(), 4);
}

#[test]
fn key_press_outside_search_does_nothing() {
    let mut m = session();
    update(&mut m, Message::KeyPress("pets".to_string()));
    assert_eq!(m.table_items.len(), 4);
    assert!(m.table_items_backup.is_none());
}

#[test]
fn quitting_and_writing() {
    let mut m = session();
    assert_eq!(update(&mut m, Message::Quit), Action::Nothing);
    assert_eq!(m.running_state, RunningState::Done);
    let mut m = session();
    assert_eq!(update(&mut m, Message::WriteAndQuit), Action::WriteOutput);
    assert_eq!(m.running_state, RunningState::Done);
}

#[test]
fn selected_first_sort() {
    let mut items = vec![
        endpoint("/c", "", Status::Unselected),
        endpoint("/b", "", Status::Selected),
        endpoint("/a", "", Status::Unselected),
        endpoint("/d", "", Status::Selected),
    ];
    sort_items_selected_first(&mut items);
    assert_eq!(paths(&items), vec!["/b", "/d", "/a", "/c"]);
}

#[test]
fn ranking_orders_by_selection_then_score() {
    let backup = vec![
        endpoint("/a", "", Status::Unselected),
        endpoint("/b", "", Status::Unselected),
        endpoint("/c", "", Status::Selected),
        endpoint("/d", "", Status::Unselected),
        endpoint("/e", "", Status::Unselected),
    ];
    let ps = vec![Some(10), None, Some(1), Some(5), Some(3)];
    let ds = vec![Some(1), None, None, Some(20), Some(5)];
    let ranked = rank_matches(&backup, &ps, &ds);
    assert_eq!(paths(&ranked), vec!["/c", "/d", "/a", "/e"]);
}

#[test]
fn ranking_keeps_ties_in_list_order() {
    let backup = vec![
        endpoint("/x", "", Status::Unselected),
        endpoint("/y", "", Status::Unselected),
        endpoint("/z", "", Status::Unselected),
    ];
    let ranked = rank_matches(&backup, &vec![None, Some(2), Some(1)], &vec![Some(4), None, Some(2)]);
    assert_eq!(paths(&ranked), vec!["/x", "/y", "/z"]);
}

#[test]
fn colours() {
    assert_eq!(hex_to_rgb(0x333333), (0x33, 0x33, 0x33));
    assert_eq!(hex_to_rgb(0x12C0FF), (0x12, 0xC0, 0xFF));
    assert_eq!(hex_to_rgb(0xFF000000), (0, 0, 0));
    assert_eq!(rgb_to_indexed(0, 0, 0), 16);
    assert_eq!(rgb_to_indexed(255, 255, 255), 231);
    assert_eq!(rgb_to_indexed(192, 192, 192), 16 + 36 * 4 + 6 * 4 + 4);
    assert_eq!(calculate_dimmed_color((192, 100, 3), Mode::Dark), (144, 75, 2));
    assert_eq!(calculate_dimmed_color((51, 200, 128), Mode::Light), (102, 255, 255));
}

#[test]
fn keys_map_to_messages() {
    let key = |k: Key| KeyInput { key: k, ctrl: false };
    assert!(matches!(handle_key(key(Key::Char('q')), false), Some(KeyAction::Send(Message::Quit))));
    assert!(matches!(handle_key(key(Key::Char('w')), false), Some(KeyAction::Send(Message::WriteAndQuit))));
    assert!(matches!(handle_key(key(Key::Char('/')), false), Some(KeyAction::Send(Message::ShowSearch))));
    assert!(matches!(handle_key(key(Key::End), false), Some(KeyAction::Send(Message::GoToBottom))));
    assert!(handle_key(key(Key::Char('x')), false).is_none());
    assert!(matches!(handle_key(key(Key::Char('q')), true), Some(KeyAction::EditSearch)));
    assert!(matches!(handle_key(key(Key::Char(' ')), true), Some(KeyAction::Send(Message::ToggleSelectItemAndSelectNext))));
    assert!(matches!(
        handle_key(KeyInput { key: Key::Char('u'), ctrl: true }, true),
        Some(KeyAction::Send(Message::ClearSearch))
    ));
    assert!(handle_key(key(Key::Enter), true).is_none());
    assert!(matches!(handle_key(key(Key::Esc), true), Some(KeyAction::Send(Message::HideSearch))));
    assert!(matches!(handle_mouse(MouseKind::Down, 7), Some(Message::SelectRow(7))));
    assert!(matches!(handle_mouse(MouseKind::ScrollUp, 7), Some(Message::ScrollUp)));
    assert!(handle_mouse(MouseKind::Other, 7).is_none());
}

#[test]
fn formats_follow_extensions() {
    assert_eq!(detect_format("spec.json"), Some(FileFormat::Json));
    assert_eq!(detect_format("dir/SPEC.JSON"), Some(FileFormat::Json));
    assert_eq!(detect_format("api.YAML"), Some(FileFormat::Yaml));
    assert_eq!(detect_format("api.yml"), Some(FileFormat::Yaml));
    assert_eq!(detect_format("api.txt"), None);
    assert_eq!(detect_format("api"), None);
    assert_eq!(detect_format(".yaml"), None);
}

#[test]
fn arguments_default_the_output() {
    let a = Args::new("in.yaml".to_string(), None);
    assert_eq!(a.outfile, "apisnip.out.yaml");
    let b = Args::new("in.yaml".to_string(), Some("x.json".to_string()));
    assert_eq!((b.input.as_str(), b.outfile.as_str()), ("in.yaml", "x.json"));
}

#[test]
fn toggling_writes_through_to_the_kept_list() {
    let mut m = session();
    update(&mut m, Message::ShowSearch);
    update(&mut m, Message::KeyPress("orders".to_string()));
    let (path, status) = m.toggle_item_status(0).unwrap();
    assert_eq!((path.as_str(), status), ("/orders", Status::Selected));
    let kept = m.table_items_backup.as_ref().unwrap();
    assert_eq!(status_of(kept, "/orders"), Status::Selected);
    assert_eq!(status_of(kept, "/pets"), Status::Unselected);
}

#[test]
fn toggling_past_the_end_does_nothing() {
    let mut m = session();
    assert!(m.toggle_item_status(4).is_none());
    assert!(m.table_items.iter().all(|e| e.status == Status::Unselected));
    let mut empty = AppModel::new(Vec::new());
    assert!(empty.toggle_item_status(0).is_none());
    update(&mut empty, Message::ToggleSelectItemAndSelectNext);
    update(&mut empty, Message::SelectNext);
    update(&mut empty, Message::GoToBottom);
    assert_eq!(empty.selected, None);
}

#[test]
fn chosen_endpoints_come_from_the_whole_list() {
    let mut m = session();
    update(&mut m, Message::SelectNext);
    update(&mut m, Message::ToggleSelectItemAndSelectNext);
    update(&mut m, Message::GoToBottom);
    update(&mut m, Message::ToggleSelectItemAndSelectNext);
    update(&mut m, Message::ShowSearch);
    update(&mut m, Message::KeyPress("orders".to_string()));
    let chosen: Vec<&str> = m.selected_endpoints().iter().map(|e| e.path.as_str()).collect();
    assert_eq!(chosen, vec!["/pets", "/users"]);
    assert!(AppModel::new(Vec::new()).selected_endpoints().is_empty());
}
