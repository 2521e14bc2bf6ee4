use cherry::picker::{KeyPress, KeyboardAction, ListRow, NavKey, PickerState};
use cherry::wallpapers::Wallpaper;

fn state(names: &[&str]) -> PickerState {
    PickerState::new(names.iter().map(|n| Wallpaper { path: n.into(), name: n.to_string() }).collect())
}

fn press(key: NavKey) -> KeyPress {
    KeyPress { key, shift: false }
}

#[test]
fn new_picker_starts_on_the_search_field() {
    let s = state(&["a.png", "b.png"]);
    assert!(s.query.is_empty());
    assert_eq!(s.selected_idx, None);
    assert!(s.focus_search);
    assert!(!s.scroll_to_selected);
    assert_eq!(s.filtered(), vec![0, 1]);
}

#[test]
fn move_selection_steps_and_clamps() {
    let mut s = state(&["a", "b", "c"]);
    s.move_selection(-1, 3);
    assert_eq!(s.selected_idx, None);
    assert!(s.scroll_to_selected);
    s.move_selection(1, 3);
    assert_eq!(s.selected_idx, Some(0));
    s.move_selection(1, 3);
    s.move_selection(1, 3);
    assert_eq!(s.selected_idx, Some(2));
    s.move_selection(1, 3);
    assert_eq!(s.selected_idx, Some(2));
    s.move_selection(-1, 3);
    assert_eq!(s.selected_idx, Some(1));
    s.move_selection(-1, 3);
    s.move_selection(-1, 3);
    assert_eq!(s.selected_idx, None);
}

#[test]
fn move_selection_in_empty_list_changes_nothing() {
    let mut s = state(&[]);
    s.move_selection(1, 0);
    assert_eq!(s.selected_idx, None);
    assert!(!s.scroll_to_selected);
}

#[test]
fn move_selection_clamps_a_stale_selection() {
    let mut s = state(&["a", "b", "c", "d", "e"]);
    s.selected_idx = Some(4);
    s.move_selection(1, 2);
    assert_eq!(s.selected_idx, Some(1));
}

#[test]
fn preview_is_first_match_until_something_is_selected() {
    let mut s = state(&["nasa.png", "nbhd_v2.jpg", "symbols.jpg"]);
    s.query = "s".to_string();
    assert_eq!(s.preview_index(), Some(0));
    assert_eq!(s.preview_wall().map(|w| w.name.as_str()), Some("nasa.png"));
    s.selected_idx = Some(1);
    assert_eq!(s.preview_index(), Some(2));
    s.selected_idx = Some(2);
    assert_eq!(s.preview_index(), None);
    assert!(s.preview_wall().is_none());
    s.query = "zz".to_string();
    s.query_changed();
    assert_eq!(s.selected_idx, None);
    assert_eq!(s.preview_index(), None);
}

#[test]
fn escape_closes_before_anything_else() {
    let mut s = state(&["a", "b"]);
    let action = s.handle_keyboard(true, &vec![press(NavKey::ArrowDown), press(NavKey::Enter)]);
    assert_eq!(action, KeyboardAction::Close);
    assert_eq!(s.selected_idx, None);
    assert!(!s.scroll_to_selected);
}

#[test]
fn enter_applies_the_previewed_wallpaper() {
    let mut s = state(&["a", "b", "c"]);
    assert_eq!(s.handle_keyboard(false, &vec![press(NavKey::Enter)]), KeyboardAction::Apply(0));
    let keys = vec![press(NavKey::ArrowDown), press(NavKey::Tab), press(NavKey::Enter)];
    assert_eq!(s.handle_keyboard(false, &keys), KeyboardAction::Apply(1));
    assert_eq!(s.selected_idx, Some(1));
    assert!(s.scroll_to_selected);
}

#[test]
fn shift_tab_and_up_move_back() {
    let mut s = state(&["a", "b", "c"]);
    s.selected_idx = Some(2);
    let back = vec![KeyPress { key: NavKey::Tab, shift: true }, press(NavKey::ArrowUp)];
    assert_eq!(s.handle_keyboard(false, &back), KeyboardAction::Nothing);
    assert_eq!(s.selected_idx, Some(0));
    let shifted_down = vec![KeyPress { key: NavKey::ArrowDown, shift: true }];
    s.handle_keyboard(false, &shifted_down);
    assert_eq!(s.selected_idx, Some(1));
}

#[test]
fn last_enter_wins_and_empty_preview_applies_nothing() {
    let mut s = state(&["a", "b"]);
    let keys = vec![press(NavKey::Enter), press(NavKey::ArrowDown), press(NavKey::ArrowDown), press(NavKey::Enter)];
    assert_eq!(s.handle_keyboard(false, &keys), KeyboardAction::Apply(1));
    let mut empty = state(&[]);
    assert_eq!(empty.handle_keyboard(false, &vec![press(NavKey::Enter)]), KeyboardAction::Nothing);
    let mut none = state(&["a"]);
    none.query = "q".to_string();
    assert_eq!(none.handle_keyboard(false, &vec![press(NavKey::ArrowDown), press(NavKey::Enter)]), KeyboardAction::Nothing);
    assert!(!none.scroll_to_selected);
}

#[test]
fn other_keys_do_nothing() {
    let mut s = state(&["a"]);
    assert_eq!(s.handle_keyboard(false, &vec![press(NavKey::Other)]), KeyboardAction::Nothing);
    assert_eq!(s.selected_idx, None);
    assert!(!s.scroll_to_selected);
}

#[test]
fn list_rows_mark_the_preview_row_and_use_up_the_scroll() {
    let mut s = state(&["x1", "y", "x2", "x3"]);
    s.query = "x".to_string();
    assert_eq!(
        s.list_rows(),
        vec![
            ListRow { wall_idx: 0, selected: true, scroll_to: false },
            ListRow { wall_idx: 2, selected: false, scroll_to: false },
            ListRow { wall_idx: 3, selected: false, scroll_to: false },
        ]
    );
    s.move_selection(1, 3);
    s.move_selection(1, 3);
    let rows = s.list_rows();
    assert_eq!(rows[1], ListRow { wall_idx: 2, selected: true, scroll_to: true });
    assert!(!s.scroll_to_selected);
    assert_eq!(s.list_rows()[1], ListRow { wall_idx: 2, selected: true, scroll_to: false });
}

#[test]
fn search_focus_on_first_frame_and_without_selection() {
    let mut s = state(&["a"]);
    s.selected_idx = Some(0);
    assert!(s.take_search_focus());
    assert!(!s.focus_search);
    assert!(!s.take_search_focus());
    s.query_changed();
    assert!(s.take_search_focus());
}

#[test]
fn move_selection_on_empty_list_ignores_any_selection() {
    let mut s = state(&[]);
    s.selected_idx = Some(usize::MAX);
    s.move_selection(1, 0);
    assert_eq!(s.selected_idx, Some(usize::MAX));
    assert!(!s.scroll_to_selected);
}

#[test]
fn escape_closes_whatever_the_selection() {
    let mut s = state(&["a"]);
    s.selected_idx = Some(usize::MAX);
    assert_eq!(s.handle_keyboard(true, &vec![press(NavKey::ArrowDown)]), KeyboardAction::Close);
    assert_eq!(s.selected_idx, Some(usize::MAX));
}

#[test]
fn keys_stay_in_range_only_where_i32_arithmetic_fits() {
    let mut s = state(&["a", "b"]);
    assert!(s.keys_stay_in_range(&vec![press(NavKey::ArrowDown), press(NavKey::Enter)]));
    s.selected_idx = Some(i32::MAX as usize);
    assert!(!s.keys_stay_in_range(&vec![press(NavKey::ArrowDown)]));
    assert!(s.keys_stay_in_range(&vec![press(NavKey::ArrowUp)]));
    assert!(s.keys_stay_in_range(&vec![press(NavKey::Enter), press(NavKey::Other)]));
    assert!(!s.keys_stay_in_range(&vec![KeyPress { key: NavKey::Tab, shift: false }]));
    s.selected_idx = Some(1usize << 31);
    assert!(!s.keys_stay_in_range(&vec![press(NavKey::ArrowUp)]));
    assert!(s.keys_stay_in_range(&vec![press(NavKey::ArrowDown), press(NavKey::ArrowUp)]));
    let mut empty = state(&[]);
    empty.selected_idx = Some(i32::MAX as usize);
    assert!(empty.keys_stay_in_range(&vec![press(NavKey::ArrowDown)]));
}
