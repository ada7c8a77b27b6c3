use far::viewport::{window, Window};

#[test]
fn window_near_the_top_of_the_list() {
    let w = window(10, 2, 50);
    assert_eq!(w.leading_blank_rows, 3);
    assert_eq!(w.skip, 0);
    assert_eq!(w.take, 7);
}

#[test]
fn window_far_into_the_list() {
    let w = window(10, 20, 50);
    assert_eq!(w.leading_blank_rows, 0);
    assert_eq!(w.skip, 15);
    assert_eq!(w.take, 10);
}

#[test]
fn window_with_the_cursor_on_the_middle_row() {
    assert_eq!(window(10, 5, 50), Window { skip: 0, take: 10, leading_blank_rows: 0 });
    assert_eq!(window(10, 4, 50), Window { skip: 0, take: 9, leading_blank_rows: 1 });
    assert_eq!(window(10, 6, 50), Window { skip: 1, take: 10, leading_blank_rows: 0 });
}

#[test]
fn window_at_the_start_of_the_list() {
    assert_eq!(window(10, 0, 50), Window { skip: 0, take: 5, leading_blank_rows: 5 });
    assert_eq!(window(11, 0, 50), Window { skip: 0, take: 6, leading_blank_rows: 5 });
}

#[test]
fn window_at_the_end_of_the_list() {
    assert_eq!(window(10, 49, 50), Window { skip: 44, take: 6, leading_blank_rows: 0 });
    assert_eq!(window(10, 46, 50), Window { skip: 41, take: 9, leading_blank_rows: 0 });
}

#[test]
fn window_on_a_short_list() {
    assert_eq!(window(10, 0, 3), Window { skip: 0, take: 3, leading_blank_rows: 5 });
    assert_eq!(window(10, 2, 3), Window { skip: 0, take: 3, leading_blank_rows: 3 });
    assert_eq!(window(10, 0, 1), Window { skip: 0, take: 1, leading_blank_rows: 5 });
}

#[test]
fn window_on_an_empty_list() {
    assert_eq!(window(10, 0, 0), Window { skip: 0, take: 0, leading_blank_rows: 5 });
}

#[test]
fn window_on_a_screen_without_rows() {
    assert_eq!(window(0, 0, 50), Window { skip: 0, take: 0, leading_blank_rows: 0 });
    assert_eq!(window(0, 7, 50), Window { skip: 7, take: 0, leading_blank_rows: 0 });
}

#[test]
fn window_on_a_screen_of_one_row() {
    assert_eq!(window(1, 0, 50), Window { skip: 0, take: 1, leading_blank_rows: 0 });
    assert_eq!(window(1, 9, 50), Window { skip: 9, take: 1, leading_blank_rows: 0 });
}

#[test]
fn window_with_the_cursor_beyond_the_list() {
    assert_eq!(window(10, 50, 50), Window { skip: 45, take: 5, leading_blank_rows: 0 });
    assert_eq!(window(10, 80, 50), Window { skip: 75, take: 0, leading_blank_rows: 0 });
}

#[test]
fn window_with_the_largest_numbers() {
    let w = window(usize::MAX, usize::MAX, usize::MAX);
    assert_eq!(w.leading_blank_rows, 0);
    assert_eq!(w.skip, usize::MAX - usize::MAX / 2);
    assert_eq!(w.take, usize::MAX / 2);
    let w = window(usize::MAX, 0, usize::MAX);
    assert_eq!(w.leading_blank_rows, usize::MAX / 2);
    assert_eq!(w.skip, 0);
    assert_eq!(w.take, usize::MAX - usize::MAX / 2);
}

#[test]
fn window_keeps_the_cursor_on_the_middle_row() {
    for total_rows in 1..13usize {
        for item_count in 1..20usize {
            for cursor in 0..item_count {
                let w = window(total_rows, cursor, item_count);
                assert!(w.leading_blank_rows + w.take <= total_rows);
                assert!(w.skip + w.take <= item_count);
                assert!(w.skip <= cursor && cursor < w.skip + w.take);
                assert_eq!(w.leading_blank_rows + (cursor - w.skip), total_rows / 2);
                assert!(w.leading_blank_rows == 0 || w.skip == 0);
            }
        }
    }
}
