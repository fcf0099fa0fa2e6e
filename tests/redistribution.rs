use tabled::{
    increase_width, widths_and_total, ColumnPeaker, Entity, GridConfig, MinWidth, Padding,
    Records, Table,
};

fn table(rows: &[&[&str]]) -> Table {
    let cols = if rows.is_empty() { 0 } else { rows[0].len() };
    let cells = rows
        .iter()
        .map(|r| r.iter().map(|s| s.to_string()).collect())
        .collect();
    Table::new(Records::new(cells, cols), GridConfig::new(rows.len(), cols))
}

fn texts(t: &Table) -> Vec<Vec<String>> {
    t.records.cells.clone()
}

#[test]
fn increase_width_pads_each_line() {
    assert_eq!(increase_width("ab\nc", 3, '-'), "ab-\nc--");
    assert_eq!(increase_width("abcd", 3, '-'), "abcd");
    assert_eq!(increase_width("", 2, ' '), "  ");
}

#[test]
fn increase_width_ignores_escapes_when_measuring() {
    let s = "\u{1b}[31mab\u{1b}[0m";
    let r = increase_width(s, 4, '.');
    assert_eq!(tabled::string_width(&r), 4);
    assert!(r.ends_with(".."));
}

#[test]
fn max_priority_grows_the_wider_column() {
    let mut t = table(&[&["abc", "abcd"]]);
    t.config.set_vertical(0, false);
    t.config.set_vertical(2, false);
    MinWidth::new(10).priority(ColumnPeaker::max()).change(&mut t);
    assert_eq!(texts(&t), vec![vec!["abc".to_string(), "abcd  ".to_string()]]);
    let (widths, total) = widths_and_total(&t.records, &t.config).unwrap();
    assert_eq!(widths, vec![3, 6]);
    assert_eq!(total, 10);
}

#[test]
fn min_priority_grows_the_narrower_column() {
    let mut t = table(&[&["abc", "abcd"]]);
    t.config.set_vertical(0, false);
    t.config.set_vertical(2, false);
    MinWidth::new(10).priority(ColumnPeaker::min()).change(&mut t);
    let (widths, total) = widths_and_total(&t.records, &t.config).unwrap();
    assert_eq!(widths, vec![5, 4]);
    assert_eq!(total, 10);
}

#[test]
fn round_robin_grows_columns_in_turn() {
    let mut t = table(&[&["a", "b", "c"]]);
    MinWidth::new(4 + 3 + 2).fill_with('*').change(&mut t);
    assert_eq!(
        texts(&t),
        vec![vec!["a*".to_string(), "b*".to_string(), "c".to_string()]]
    );
    let (_, total) = widths_and_total(&t.records, &t.config).unwrap();
    assert!(total >= 9);
}

#[test]
fn request_below_total_leaves_grid_unchanged() {
    let mut t = table(&[&["abc", "abcd"], &["x", "y"]]);
    let before = texts(&t);
    MinWidth::new(5).change(&mut t);
    assert_eq!(texts(&t), before);
    MinWidth::new(10).change(&mut t);
    assert_eq!(texts(&t), before);
}

#[test]
fn growing_twice_is_idempotent() {
    let mut t = table(&[&["abc", "abcd"], &["x", "y"]]);
    MinWidth::new(15).change(&mut t);
    let once = texts(&t);
    MinWidth::new(15).change(&mut t);
    assert_eq!(texts(&t), once);
    let (_, total) = widths_and_total(&t.records, &t.config).unwrap();
    assert_eq!(total, 15);
}

#[test]
fn empty_table_is_left_alone() {
    let mut t = table(&[]);
    MinWidth::new(50).change(&mut t);
    assert!(t.records.cells.is_empty());
}

#[test]
fn spanning_cell_gets_span_width_less_padding() {
    let mut t = table(&[&["ab", ""], &["c", "d"]]);
    t.config.set_span(0, 0, 2);
    t.config.set_padding(0, 0, Padding::new(1, 1, 0, 0));
    MinWidth::new(2 + 4 + 3 + 3).priority(ColumnPeaker::min()).change(&mut t);
    let cells = texts(&t);
    // Widths start at [4, 1] and grow to [5, 4]: the span holds 5 + 4 + 1 border less 2 padding.
    assert_eq!(cells[0][0], "ab      ");
    assert_eq!(cells[0][1], "");
    assert_eq!(cells[1][0], "c    ");
    assert_eq!(cells[1][1], "d   ");
}

#[test]
fn padding_wider_than_span_clamps_content_width_to_zero() {
    let mut t = table(&[&["", "x"]]);
    t.config.set_padding(0, 0, Padding::new(20, 20, 0, 0));
    t.config.set_padding(0, 1, Padding::new(0, 0, 0, 0));
    MinWidth::new(44).priority(ColumnPeaker::min()).change(&mut t);
    let cells = texts(&t);
    assert_eq!(cells[0][0], "");
    assert_eq!(cells[0][1], "x");
}

#[test]
fn change_cell_pads_only_the_entity() {
    let mut t = table(&[&["a", "bb"], &["ccc", "d"]]);
    MinWidth::new(3).fill_with('_').change_cell(&mut t, Entity::Column(1));
    assert_eq!(
        texts(&t),
        vec![
            vec!["a".to_string(), "bb_".to_string()],
            vec!["ccc".to_string(), "d__".to_string()]
        ]
    );
    MinWidth::new(2).change_cell(&mut t, Entity::Cell(0, 0));
    assert_eq!(t.records.cells[0][0], "a ");
    assert_eq!(t.records.cells[1][0], "ccc");
}

#[test]
fn change_cell_on_rows_and_whole_grid() {
    let mut t = table(&[&["a", "b"], &["c", "d"]]);
    MinWidth::new(2).fill_with('.').change_cell(&mut t, Entity::Row(1));
    assert_eq!(t.records.cells[0], vec!["a".to_string(), "b".to_string()]);
    assert_eq!(t.records.cells[1], vec!["c.".to_string(), "d.".to_string()]);
    MinWidth::new(3).fill_with('-').change_cell(&mut t, Entity::Global);
    assert_eq!(t.records.cells[0], vec!["a--".to_string(), "b--".to_string()]);
    assert_eq!(t.records.cells[1], vec!["c.-".to_string(), "d.-".to_string()]);
}

#[test]
fn round_robin_touches_every_column_once() {
    let widths = vec![5, 1, 9];
    let mut p = ColumnPeaker::none();
    let picks: Vec<_> = (0..3).map(|_| p.peak(&widths).unwrap()).collect();
    assert_eq!(picks, vec![0, 1, 2]);
    assert_eq!(p.peak(&widths), Some(0));
    let mut q = ColumnPeaker::PriorityNone { cursor: 2 };
    let picks: Vec<_> = (0..3).map(|_| q.peak(&widths).unwrap()).collect();
    assert_eq!(picks, vec![2, 0, 1]);
}

#[test]
fn extreme_peakers_break_ties_by_lowest_index() {
    let widths = vec![2, 7, 1, 7, 1];
    assert_eq!(ColumnPeaker::max().peak(&widths), Some(1));
    assert_eq!(ColumnPeaker::min().peak(&widths), Some(2));
    assert_eq!(ColumnPeaker::max().peak(&widths), ColumnPeaker::max().peak(&widths));
}

#[test]
fn peakers_pick_nothing_without_columns() {
    let widths: Vec<usize> = vec![];
    assert_eq!(ColumnPeaker::none().peak(&widths), None);
    assert_eq!(ColumnPeaker::max().peak(&widths), None);
    assert_eq!(ColumnPeaker::min().peak(&widths), None);
}

#[test]
fn styled_multiline_cell_is_padded_by_rendered_width() {
    let mut t = table(&[&["\u{1b}[31mab\ncd\u{1b}[0m"]]);
    MinWidth::new(4).fill_with('.').change_cell(&mut t, Entity::Global);
    let cell = &t.records.cells[0][0];
    for line in cell.split('\n') {
        assert_eq!(tabled::string_width(line), 4);
    }
    assert!(cell.contains(".."));
}
