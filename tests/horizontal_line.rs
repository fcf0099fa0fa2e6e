use tabled::{HorizontalLine, Line};

#[test]
fn horizontal_line_setters_and_getters() {
    let h = HorizontalLine::new(1, Line::empty())
        .main(Some('-'))
        .intersection(Some('+'))
        .left(Some('['))
        .right(Some(']'));
    assert_eq!(h.index, 1);
    assert_eq!(h.get_split(), Some('-'));
    assert_eq!(h.get_intersection(), Some('+'));
    assert_eq!(h.get_left(), Some('['));
    assert_eq!(h.get_right(), Some(']'));
}

#[test]
fn horizontal_line_keeps_given_line() {
    let h = HorizontalLine::new(0, Line::new(Some('='), None, Some('|'), None));
    assert_eq!(h.get_split(), Some('='));
    assert_eq!(h.get_intersection(), None);
    assert_eq!(h.get_left(), Some('|'));
    assert_eq!(h.get_right(), None);
    let h = h.left(None);
    assert_eq!(h.get_left(), None);
    assert_eq!(h.get_split(), Some('='));
}
