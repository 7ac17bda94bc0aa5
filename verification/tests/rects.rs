use bluebrick_bindings_generator::rect::{pos_before, CharRect};

#[test]
fn positions_are_ordered_by_line_then_column() {
    assert!(pos_before((1, 9), (2, 1)));
    assert!(pos_before((2, 1), (2, 1)));
    assert!(pos_before((2, 1), (2, 2)));
    assert!(!pos_before((2, 2), (2, 1)));
    assert!(!pos_before((3, 1), (2, 9)));
}

#[test]
fn new_rect_holds_start_and_end() {
    let rect = CharRect::new((1, 2), (3, 4));
    assert_eq!(rect.start_line, 1);
    assert_eq!(rect.start_column, 2);
    assert_eq!(rect.end_line, 3);
    assert_eq!(rect.end_column, 4);
    assert_eq!(rect.start(), (1, 2));
    assert_eq!(rect.end(), (3, 4));
}

#[test]
fn default_rect_is_all_zero() {
    assert_eq!(CharRect::default(), CharRect::new((0, 0), (0, 0)));
}

#[test]
fn merge_takes_the_earlier_start_and_the_later_end() {
    let a = CharRect::new((2, 5), (2, 9));
    let b = CharRect::new((1, 7), (2, 6));
    assert_eq!(CharRect::from((a, b)), CharRect::new((1, 7), (2, 9)));
    assert_eq!(CharRect::from((b, a)), CharRect::new((1, 7), (2, 9)));
}

#[test]
fn merge_compares_lines_before_columns() {
    let a = CharRect::new((1, 50), (1, 60));
    let b = CharRect::new((2, 1), (2, 2));
    assert_eq!(CharRect::from((a, b)), CharRect::new((1, 50), (2, 2)));
}

#[test]
fn merge_is_associative_on_examples() {
    let a = CharRect::new((3, 1), (3, 4));
    let b = CharRect::new((1, 8), (2, 2));
    let c = CharRect::new((2, 1), (5, 1));
    let left = CharRect::from((CharRect::from((a, b)), c));
    let right = CharRect::from((a, CharRect::from((b, c))));
    assert_eq!(left, right);
    assert_eq!(left, CharRect::new((1, 8), (5, 1)));
}

#[test]
fn rect_is_printed_with_its_four_numbers() {
    assert_eq!(CharRect::new((1, 2), (30, 405)).to_string(), "from 1, 2, to 30, 405");
    assert_eq!(CharRect::default().to_string(), "from 0, 0, to 0, 0");
}
