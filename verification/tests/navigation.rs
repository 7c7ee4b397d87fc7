use csv_viewer::csv_data::CSVData;
use csv_viewer::processor::CSVProcessor;
use csv_viewer::tui::{KeyInput, TableTUI, ITEM_HEIGHT};

fn strings(fields: &[&str]) -> Vec<String> {
    fields.iter().map(|f| f.to_string()).collect()
}

fn three_rows() -> CSVData {
    CSVData {
        header: strings(&["name", "age", "city"]),
        content: vec![
            strings(&["Alice", "30", "NYC"]),
            strings(&["Bob", "25", "LA"]),
            strings(&["Carol", "28", "SF"]),
        ],
    }
}

#[test]
fn column_widths_fit_header_and_content() {
    let widths = TableTUI::max_col_width(&three_rows());
    // Slot count is the widest content row; each width is the longest cell
    // plus two, the last slot widened by the header alone.
    assert_eq!(widths, vec![7, 5, 6]);
}

#[test]
fn width_count_matches_widest_row() {
    let data = CSVData {
        header: strings(&["a", "b", "c", "d"]),
        content: vec![strings(&["1"]), strings(&["2", "3"])],
    };
    // A header longer than the widest content row does not add slots.
    let widths = TableTUI::max_col_width(&data);
    assert_eq!(widths.len(), 2);
    assert_eq!(widths, vec![3, 3]);
}

#[test]
fn no_rows_means_no_slots() {
    let data = CSVData { header: strings(&["a", "b"]), content: Vec::new() };
    assert_eq!(TableTUI::max_col_width(&data), Vec::<usize>::new());
}

#[test]
fn forward_moves_follow_modular_arithmetic() {
    let mut t = TableTUI::new(&three_rows());
    assert_eq!(t.selected_row, 0);
    for n in 1..=7usize {
        t.next_row();
        assert_eq!(t.selected_row, n % 3);
    }
}

#[test]
fn forward_move_updates_scroll_offset() {
    let mut t = TableTUI::new(&three_rows());
    assert_eq!(t.scroll_offset, 0);
    t.next_row();
    assert_eq!(t.scroll_offset, ITEM_HEIGHT);
    t.next_row();
    assert_eq!(t.scroll_offset, 2 * ITEM_HEIGHT);
    t.next_row();
    assert_eq!(t.scroll_offset, 0);
}

#[test]
fn backward_from_first_row_wraps_to_last() {
    let mut t = TableTUI::new(&three_rows());
    assert_eq!(t.selected_row, 0);
    t.previous_row();
    assert_eq!(t.selected_row, 2);
    t.previous_row();
    assert_eq!(t.selected_row, 1);
}

#[test]
fn column_moves_wrap_over_slot_count() {
    let mut t = TableTUI::new(&three_rows());
    assert_eq!(t.selected_column, 0);
    t.next_column();
    assert_eq!(t.selected_column, 1);
    t.next_column();
    assert_eq!(t.selected_column, 2);
    t.next_column();
    assert_eq!(t.selected_column, 0);
    t.previous_column();
    assert_eq!(t.selected_column, 2);
}

#[test]
fn empty_table_navigation_is_a_no_op() {
    let mut t = TableTUI::new(&CSVData::new());
    t.next_row();
    t.previous_row();
    t.next_column();
    t.previous_column();
    assert_eq!(t.selected_row, 0);
    assert_eq!(t.selected_column, 0);
    assert_eq!(t.scroll_offset, 0);
}

#[test]
fn scenario_two_rows_wraps_after_two_moves() {
    let mut proc = CSVProcessor::new();
    let content = Some("name,age,city\nAlice,30,NYC\nBob,25,LA\n".as_bytes().to_vec());
    let data = proc.read_csv(&content);
    let mut t = TableTUI::new(&data);
    assert_eq!(t.selected_row, 0);
    t.next_row();
    assert_eq!(t.selected_row, 1);
    t.next_row();
    assert_eq!(t.selected_row, 0);
}

#[test]
fn quit_keys_end_the_session() {
    let mut t = TableTUI::new(&three_rows());
    assert!(t.handle_key(KeyInput::Char('q')));
    assert!(t.handle_key(KeyInput::Esc));
    assert_eq!(t.selected_row, 0);
    assert_eq!(t.selected_column, 0);
}

#[test]
fn movement_keys_drive_the_selection() {
    let mut t = TableTUI::new(&three_rows());
    assert!(!t.handle_key(KeyInput::Char('j')));
    assert_eq!(t.selected_row, 1);
    assert!(!t.handle_key(KeyInput::Down));
    assert_eq!(t.selected_row, 2);
    assert!(!t.handle_key(KeyInput::Char('k')));
    assert_eq!(t.selected_row, 1);
    assert!(!t.handle_key(KeyInput::Up));
    assert_eq!(t.selected_row, 0);
    assert!(!t.handle_key(KeyInput::Char('l')));
    assert_eq!(t.selected_column, 1);
    assert!(!t.handle_key(KeyInput::Right));
    assert_eq!(t.selected_column, 2);
    assert!(!t.handle_key(KeyInput::Char('h')));
    assert_eq!(t.selected_column, 1);
    assert!(!t.handle_key(KeyInput::Left));
    assert_eq!(t.selected_column, 0);
}

#[test]
fn unbound_keys_change_nothing() {
    let mut t = TableTUI::new(&three_rows());
    assert!(!t.handle_key(KeyInput::Char('x')));
    assert!(!t.handle_key(KeyInput::Other));
    assert_eq!(t.selected_row, 0);
    assert_eq!(t.selected_column, 0);
}

#[test]
fn new_view_starts_at_initial_position() {
    let t = TableTUI::new(&three_rows());
    assert_eq!(t.selected_row, 0);
    assert_eq!(t.selected_column, 0);
    assert_eq!(t.scroll_offset, 0);
    assert_eq!(t.items, three_rows());
    assert_eq!(t.column_widths, vec![7, 5, 6]);
}
