use oxide_code::slash::theme::ThemeRow;
use oxide_code::tui::kv_overview::{KvOverview, KvSection};
use oxide_code::tui::list_picker::ListPicker;
use oxide_code::tui::modal::{list_layout, Area, KeyCode, KeyEvent, ModalKey};

fn picker() -> ListPicker<ThemeRow> {
    ListPicker::new(ThemeRow::build("mocha"))
}

#[test]
fn rows_go_round_in_both_directions() {
    let mut list = picker();
    let n = list.len();
    list.select_prev();
    assert_eq!(list.selected_index(), n - 1);
    list.select_next();
    assert_eq!(list.selected_index(), 0);
    for _ in 0..n {
        list.select_next();
    }
    assert_eq!(list.selected_index(), 0);
}

#[test]
fn hints_jump_to_their_row_only() {
    let mut list = picker();
    assert!(list.select_by_hint('2'));
    assert_eq!(list.selected_index(), 1);
    assert!(!list.select_by_hint('9'));
    assert_eq!(list.selected_index(), 1);
    assert!(list.item(list.len()).is_none());
}

#[test]
fn an_empty_list_has_no_selection() {
    let mut list: ListPicker<ThemeRow> = ListPicker::new(Vec::new());
    list.select_next();
    list.select_prev();
    list.select_active();
    assert!(list.selected().is_none());
    assert_eq!(list.len(), 0);
}

#[test]
fn lists_and_footers_stay_inside_their_place() {
    for height in 0..12 {
        let area = Area { x: 1, y: 3, width: 20, height };
        let places = list_layout(area, 6);
        assert_eq!(places.list.height, height.min(6));
        match places.footer {
            Some(footer) => {
                assert_eq!(footer.y, 3 + 6 + 1);
                assert!(footer.y + footer.height <= 3 + height);
            }
            None => assert!(height < 8),
        }
    }
}

#[test]
fn overviews_count_their_lines_and_close_on_enter_and_esc() {
    let row = || ("a".to_owned(), "b".to_owned());
    let plain = KvSection { heading: None, rows: vec![row(), row()] };
    let headed = KvSection { heading: Some("H"), rows: vec![row()] };
    let one = KvOverview::new("T", vec![plain]);
    let two = KvOverview::new(
        "T",
        vec![KvSection { heading: None, rows: vec![row(), row()] }, headed],
    );
    assert_eq!(two.height() - one.height(), 4, "a blank line, a heading with one, a row");
    assert_eq!(two.handle_key(&KeyEvent::plain(KeyCode::Enter)), ModalKey::Cancelled);
    assert_eq!(two.handle_key(&KeyEvent::plain(KeyCode::Esc)), ModalKey::Cancelled);
    assert_eq!(two.handle_key(&KeyEvent::plain(KeyCode::Char('x'))), ModalKey::Consumed);
}
