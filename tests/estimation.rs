use tabled::{
    count_borders, is_ansi_safe, string_width, widths_and_total, GridConfig, HeightEstimator,
    Padding, Records,
};

fn records(rows: &[&[&str]]) -> Records {
    let cols = if rows.is_empty() { 0 } else { rows[0].len() };
    let cells = rows
        .iter()
        .map(|r| r.iter().map(|s| s.to_string()).collect())
        .collect();
    Records::new(cells, cols)
}

#[test]
fn height_of_three_lines_with_vertical_padding() {
    let rec = records(&[&["a\nb\nc"]]);
    let mut cfg = GridConfig::new(1, 1);
    cfg.set_padding(0, 0, Padding::new(0, 0, 1, 1));
    let mut est = HeightEstimator::new();
    est.estimate(&rec, &cfg);
    assert_eq!(est.get(0), Some(5));
    assert_eq!(est.get(1), None);
    assert_eq!(est.total(), 5);
}

#[test]
fn height_takes_tallest_cell_and_blank_counts_as_one_line() {
    let rec = records(&[&["", "x"], &["a\nb", ""]]);
    let cfg = GridConfig::new(2, 2);
    let mut est = HeightEstimator::new();
    est.estimate(&rec, &cfg);
    assert_eq!(est.get(0), Some(1));
    assert_eq!(est.get(1), Some(2));
    assert_eq!(est.total(), 3);
}

#[test]
fn height_total_is_sum_of_rows() {
    let rec = records(&[&["a"], &["a\nb\nc\nd"], &["\n"]]);
    let mut cfg = GridConfig::new(3, 1);
    cfg.set_padding(2, 0, Padding::new(4, 4, 0, 3));
    let mut est = HeightEstimator::new();
    est.estimate(&rec, &cfg);
    let sum: usize = (0..3).map(|r| est.get(r).unwrap()).sum();
    assert_eq!(est.total(), sum);
    assert_eq!(est.total(), 1 + 4 + 5);
    for r in 0..3 {
        assert!(est.get(r).unwrap() >= 1);
    }
    assert_eq!(est.get(3), None);
}

#[test]
fn height_estimate_is_deterministic() {
    let rec = records(&[&["x\ny", "z"], &["", "1\n2\n3"]]);
    let mut cfg = GridConfig::new(2, 2);
    cfg.set_padding(0, 1, Padding::new(0, 0, 2, 0));
    let mut a = HeightEstimator::new();
    a.estimate(&rec, &cfg);
    let mut b = HeightEstimator::from(vec![9, 9, 9]);
    b.estimate(&rec, &cfg);
    assert_eq!(a, b);
    a.estimate(&rec, &cfg);
    assert_eq!(a, b);
    assert_eq!(a.get(0), Some(3));
    assert_eq!(a.get(1), Some(3));
}

#[test]
fn height_estimator_from_heights() {
    let est = HeightEstimator::from(vec![2, 3, 4]);
    assert_eq!(est.get(2), Some(4));
    assert_eq!(est.get(3), None);
    assert_eq!(est.total(), 9);
}

#[test]
fn width_of_plain_styled_and_wide_text() {
    assert_eq!(string_width(""), 0);
    assert_eq!(string_width("abc"), 3);
    assert_eq!(string_width("\u{1b}[31mab\u{1b}[0m"), 2);
    assert_eq!(string_width("日本"), 4);
}

#[test]
fn record_width_and_lines() {
    let rec = records(&[&["ab\nabcde\n", "\u{1b}[1mxyz\u{1b}[0m"]]);
    assert_eq!(rec.get_width(0, 0), 5);
    assert_eq!(rec.get_width(0, 1), 3);
    assert_eq!(rec.count_lines(0, 0), 3);
    assert_eq!(rec.count_lines(0, 1), 1);
}

#[test]
fn column_widths_and_total_with_one_border() {
    let rec = records(&[&["abc", "abcd"]]);
    let mut cfg = GridConfig::new(1, 2);
    cfg.set_vertical(0, false);
    cfg.set_vertical(2, false);
    let (widths, total) = widths_and_total(&rec, &cfg).unwrap();
    assert_eq!(widths, vec![3, 4]);
    assert_eq!(total, 8);
}

#[test]
fn column_widths_include_horizontal_padding() {
    let rec = records(&[&["ab", "c"], &["a", "cdef"]]);
    let mut cfg = GridConfig::new(2, 2);
    cfg.set_padding(0, 0, Padding::new(1, 2, 0, 0));
    let (widths, total) = widths_and_total(&rec, &cfg).unwrap();
    assert_eq!(widths, vec![5, 4]);
    assert_eq!(total, 5 + 4 + 3);
}

#[test]
fn spanning_cell_counts_for_its_first_column_only() {
    let rec = records(&[&["abcdefgh", "ignored text"], &["a", "b"]]);
    let mut cfg = GridConfig::new(2, 2);
    cfg.set_span(0, 0, 2);
    let (widths, total) = widths_and_total(&rec, &cfg).unwrap();
    assert_eq!(widths, vec![8, 1]);
    assert_eq!(total, 9 + 3);
}

#[test]
fn span_past_last_column_is_cut() {
    let rec = records(&[&["a", "bb", "ccc"]]);
    let mut cfg = GridConfig::new(1, 3);
    cfg.set_span(0, 1, 7);
    let (widths, _) = widths_and_total(&rec, &cfg).unwrap();
    assert_eq!(widths, vec![1, 2, 0]);
}

#[test]
fn overflowing_total_is_none() {
    let rec = records(&[&["a", "b"]]);
    let mut cfg = GridConfig::new(1, 2);
    cfg.set_padding(0, 0, Padding::new(usize::MAX - 1, 0, 0, 0));
    cfg.set_padding(0, 1, Padding::new(usize::MAX - 1, 0, 0, 0));
    assert!(widths_and_total(&rec, &cfg).is_none());
}

#[test]
fn empty_grid_has_only_its_outer_border() {
    let rec = records(&[]);
    let cfg = GridConfig::new(0, 0);
    let (widths, total) = widths_and_total(&rec, &cfg).unwrap();
    assert!(widths.is_empty());
    assert_eq!(total, 1);
    let mut est = HeightEstimator::new();
    est.estimate(&rec, &cfg);
    assert_eq!(est.get(0), None);
    assert_eq!(est.total(), 0);
}

#[test]
fn borders_inside_a_span() {
    let mut cfg = GridConfig::new(1, 4);
    assert_eq!(count_borders(&cfg, 0, 4, 4), 3);
    assert_eq!(count_borders(&cfg, 1, 2, 4), 0);
    cfg.set_vertical(2, false);
    assert_eq!(count_borders(&cfg, 0, 4, 4), 2);
    assert_eq!(count_borders(&cfg, 1, 3, 4), 0);
}

#[test]
fn rows_that_fit_are_estimated_even_when_their_sum_does_not() {
    let rec = records(&[&["a"], &["b"]]);
    let mut cfg = GridConfig::new(2, 1);
    let big = usize::MAX / 2 + 1;
    cfg.set_padding(0, 0, Padding::new(0, 0, big, 0));
    cfg.set_padding(1, 0, Padding::new(0, 0, 0, big));
    let mut est = HeightEstimator::new();
    est.estimate(&rec, &cfg);
    assert_eq!(est.get(0), Some(big + 1));
    assert_eq!(est.get(1), Some(big + 1));
    assert_eq!(est.get(2), None);
}

#[test]
fn escape_safety_of_texts() {
    assert!(is_ansi_safe(""));
    assert!(is_ansi_safe("plain é text\n"));
    assert!(is_ansi_safe("\u{1b}[31mab\u{1b}[0m"));
    assert!(is_ansi_safe("\u{1b}[1;38;5;200mx\u{1b}[0m"));
    assert!(!is_ansi_safe("\u{1b}é\t\t\u{1b}"));
    assert!(!is_ansi_safe("\u{1b}é\t\t\u{1b}[31m"));
    assert!(!is_ansi_safe("\u{1b}[m"));
    assert!(!is_ansi_safe("\u{1b}[31"));
    assert!(!is_ansi_safe("\u{1b}[3\u{1b}[1m"));
    let many = format!("\u{1b}[{}m", vec!["1"; 40].join(";"));
    assert!(!is_ansi_safe(&many));
}

#[test]
fn row_without_cells_is_one_line_tall() {
    let rec = Records::new(vec![vec![], vec![]], 0);
    let cfg = GridConfig::new(2, 0);
    let mut est = HeightEstimator::new();
    est.estimate(&rec, &cfg);
    assert_eq!(est.get(0), Some(1));
    assert_eq!(est.get(1), Some(1));
    assert_eq!(est.get(2), None);
    assert_eq!(est.total(), 2);
}
